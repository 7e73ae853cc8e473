use crate::addr::{Endpoint, IpAddress};
use crate::args::ClientOpts;
use crate::conns::{
    lemma_expire_keeps_exactly_the_live, lemma_key_finds_connection, ConnEntry, ConnTable,
    EventTarget, Route,
    CONN_TIMEOUT_MS, HOP_INTERVAL_MS, KEY_MAX, TIME_LIMIT_MS,
};
use crate::hopping::ShufflingRand;
use rand::rngs::SmallRng;
use vstd::prelude::*;

verus! {

/// The decisions of the client side of the relay. Each client that sends
/// to the downstream socket gets a connection of its own; all connections
/// send to the server side on the same port, which hops through the port
/// range, each port once per round, one hop per `HOP_INTERVAL_MS`.
pub struct ClientCore {
    opts: ClientOpts,
    conns: ConnTable,
    ports: ShufflingRand,
    us_port: u16,
    hop_deadline: u64,
}

impl ClientCore {
    pub closed spec fn opts(&self) -> ClientOpts {
        self.opts
    }

    pub closed spec fn conns(&self) -> ConnTable {
        self.conns
    }

    pub closed spec fn ports(&self) -> ShufflingRand {
        self.ports
    }

    /// The server port packets go to now.
    pub closed spec fn us_port(&self) -> u16 {
        self.us_port
    }

    /// When the next hop is due.
    pub closed spec fn hop_deadline(&self) -> u64 {
        self.hop_deadline
    }

    pub open spec fn wf(&self) -> bool {
        &&& self.conns().wf()
        &&& self.conns().key_limit() == KEY_MAX
        &&& self.ports().wf()
        &&& self.opts().server_pr_min <= self.opts().server_pr_max
        &&& self.ports().low() == self.opts().server_pr_min
        &&& self.ports().count() == self.opts().server_pr_max - self.opts().server_pr_min + 1
        &&& self.opts().server_pr_min <= self.us_port() <= self.opts().server_pr_max
        &&& self.hop_deadline() <= TIME_LIMIT_MS + HOP_INTERVAL_MS
    }

    /// Whether a packet from `src` comes from the server side.
    pub open spec fn from_server(&self, src: Endpoint) -> bool {
        &&& src.spec_ip() == self.opts().server_ip
        &&& self.opts().server_pr_min <= src.spec_port() <= self.opts().server_pr_max
    }

    pub open spec fn spec_classify(&self, key: usize) -> EventTarget {
        if key == KEY_MAX {
            EventTarget::Downstream(0)
        } else {
            match self.conns().position_of_key(key) {
                Some(i) => EventTarget::Upstream(i as usize),
                None => EventTarget::Spurious,
            }
        }
    }

    /// A packet from the downstream peer `src` at time `now` took `pre` to
    /// `post`, returning `r`. A known peer's connection is renewed in
    /// place; a new peer's connection comes last under the next key, or,
    /// with every key used, the packet is dropped (`None`).
    pub open spec fn downstream_step(
        pre: ClientCore,
        post: ClientCore,
        src: Endpoint,
        now: u64,
        r: Option<Route>,
    ) -> bool {
        let timeout = (now + CONN_TIMEOUT_MS) as u64;
        let dst = Endpoint::spec_new(pre.opts().server_ip, pre.us_port());
        &&& post.opts() == pre.opts()
        &&& post.ports() == pre.ports()
        &&& post.us_port() == pre.us_port()
        &&& post.hop_deadline() == pre.hop_deadline()
        &&& post.conns().key_limit() == pre.conns().key_limit()
        &&& match pre.conns().position_of(src) {
            Some(i) => {
                let e = pre.conns().entries()[i].1;
                &&& r == Some(Route { index: i as usize, key: e.key, fresh: false, dst })
                &&& post.conns().entries() == pre.conns().entries().update(
                    i,
                    (src.spec_key(), ConnEntry { timeout, ..e }),
                )
                &&& post.conns().next_key() == pre.conns().next_key()
            },
            None => if pre.conns().next_key() < pre.conns().key_limit() {
                let key = pre.conns().next_key();
                &&& r == Some(
                    Route { index: pre.conns().entries().len() as usize, key, fresh: true, dst },
                )
                &&& post.conns().entries() == pre.conns().entries().push(
                    (src.spec_key(), ConnEntry { peer: src, key, timeout, ds_index: 0 }),
                )
                &&& post.conns().next_key() == key + 1
            } else {
                r is None && post.conns() == pre.conns()
            },
        }
    }

    /// The bookkeeping at time `now` took `pre` to `post`, closing the
    /// connections that had the positions `gone`: the expired connections
    /// close, then, if the hop deadline has passed, the client moves to the
    /// next port of its sequence and the deadline moves on by one interval.
    pub open spec fn tick_step(pre: ClientCore, post: ClientCore, now: u64, gone: Seq<usize>) -> bool {
        &&& post.opts() == pre.opts()
        &&& ConnTable::expire_step(pre.conns(), post.conns(), now, gone)
        &&& now > pre.hop_deadline() ==> {
            &&& ShufflingRand::next_step(pre.ports(), post.ports(), post.us_port())
            &&& post.hop_deadline() == pre.hop_deadline() + HOP_INTERVAL_MS
        }
        &&& now <= pre.hop_deadline() ==> {
            &&& post.ports() == pre.ports()
            &&& post.us_port() == pre.us_port()
            &&& post.hop_deadline() == pre.hop_deadline()
        }
    }

    /// A packet from `src` on the upstream socket of the connection at
    /// `index`, at time `now`, took `pre` to `post`, returning `r`: only
    /// packets from the server side go on, to the connection's peer, and
    /// renew the connection's timeout.
    pub open spec fn upstream_step(
        pre: ClientCore,
        post: ClientCore,
        index: usize,
        src: Endpoint,
        now: u64,
        r: Option<Endpoint>,
    ) -> bool {
        &&& post.opts() == pre.opts()
        &&& post.ports() == pre.ports()
        &&& post.us_port() == pre.us_port()
        &&& post.hop_deadline() == pre.hop_deadline()
        &&& post.conns().next_key() == pre.conns().next_key()
        &&& pre.from_server(src) ==> {
            let e = pre.conns().entries()[index as int];
            &&& r == Some(e.1.peer)
            &&& post.conns().entries() == pre.conns().entries().update(
                index as int,
                (e.0, ConnEntry { timeout: (now + CONN_TIMEOUT_MS) as u64, ..e.1 }),
            )
        }
        &&& !pre.from_server(src) ==> r is None && post.conns() == pre.conns()
    }

    /// The client side with no connections, on a first port of its range.
    pub fn new(opts: ClientOpts, rng: SmallRng, now: u64) -> (c: ClientCore)
        requires
            opts.server_pr_min <= opts.server_pr_max,
            now <= TIME_LIMIT_MS,
        ensures
            c.wf(),
            c.opts() == opts,
            c.conns().entries().len() == 0,
            c.conns().next_key() == 0,
            c.hop_deadline() == now + HOP_INTERVAL_MS,
            c.ports().order().to_multiset() == crate::hopping::port_range(
                opts.server_pr_min as int,
                (opts.server_pr_max - opts.server_pr_min + 1) as nat,
            ).to_multiset(),
            c.us_port() == c.ports().order()[0],
            c.ports().step() == 1nat % c.ports().count(),
    {
        let mut ports = ShufflingRand::new(opts.server_pr_min, opts.server_pr_max, rng);
        let us_port = ports.next();
        ClientCore {
            opts,
            conns: ConnTable::new(KEY_MAX),
            ports,
            us_port,
            hop_deadline: now + HOP_INTERVAL_MS,
        }
    }

    /// The server port packets go to now.
    pub fn upstream_port(&self) -> (p: u16)
        ensures
            p == self.us_port(),
    {
        self.us_port
    }

    /// The address new upstream sockets are bound to: the unspecified
    /// address of the server's family.
    pub fn bind_ip(&self) -> (ip: IpAddress)
        ensures
            ip == self.opts().server_ip.spec_unspecified(),
    {
        self.opts.server_ip.unspecified()
    }

    pub fn conn_count(&self) -> (n: usize)
        ensures
            n == self.conns().entries().len(),
    {
        self.conns.len()
    }

    /// What the poller key `key` stands for.
    pub fn classify(&self, key: usize) -> (t: EventTarget)
        requires
            self.wf(),
        ensures
            t == self.spec_classify(key),
    {
        if key == KEY_MAX {
            EventTarget::Downstream(0)
        } else {
            match self.conns.find_key(key) {
                Some(i) => EventTarget::Upstream(i),
                None => EventTarget::Spurious,
            }
        }
    }

    /// The bookkeeping at the start of each turn of the event loop: the
    /// connections no longer alive at `now` are closed (their positions
    /// are returned, in increasing order; the others keep their keys),
    /// then, if the hop deadline has passed, the client moves to the next
    /// port and the deadline moves on by one interval.
    pub fn tick(&mut self, now: u64) -> (gone: Vec<usize>)
        requires
            old(self).wf(),
            now <= TIME_LIMIT_MS,
        ensures
            final(self).wf(),
            Self::tick_step(*old(self), *final(self), now, gone@),
    {
        let gone = self.conns.expire(now);
        if now > self.hop_deadline {
            self.us_port = self.ports.next();
            self.hop_deadline = self.hop_deadline + HOP_INTERVAL_MS;
        }
        gone
    }

    /// A packet from the downstream peer `src`: its connection is opened
    /// if it has none, and its timeout renewed. The packet goes to the
    /// server side on the current port.
    pub fn on_downstream(&mut self, src: Endpoint, now: u64) -> (r: Option<Route>)
        requires
            old(self).wf(),
            now <= TIME_LIMIT_MS,
        ensures
            final(self).wf(),
            Self::downstream_step(*old(self), *final(self), src, now, r),
    {
        let dst = Endpoint::new(self.opts.server_ip, self.us_port);
        match self.conns.find(&src) {
            Some(i) => {
                let e = match self.conns.get(i) {
                    Some(e) => e,
                    None => {
                        proof {
                            assert(false);
                        }
                        return None;
                    },
                };
                self.conns.update(i, now + CONN_TIMEOUT_MS, e.ds_index);
                Some(Route { index: i, key: e.key, fresh: false, dst })
            },
            None => match self.conns.insert(src, now + CONN_TIMEOUT_MS, 0) {
                Some((i, key)) => Some(Route { index: i, key, fresh: true, dst }),
                None => None,
            },
        }
    }

    /// A packet on the upstream socket of the connection at `index`, from
    /// `src`. Only packets from the server side go on, to the connection's
    /// peer, and renew the connection's timeout; others are dropped.
    pub fn on_upstream(&mut self, index: usize, src: Endpoint, now: u64) -> (r: Option<Endpoint>)
        requires
            old(self).wf(),
            index < old(self).conns().entries().len(),
            now <= TIME_LIMIT_MS,
        ensures
            final(self).wf(),
            Self::upstream_step(*old(self), *final(self), index, src, now, r),
    {
        let ip = src.ip();
        let port = src.port();
        if ip == self.opts.server_ip && self.opts.server_pr_min <= port && port
            <= self.opts.server_pr_max {
            let e = match self.conns.get(index) {
                Some(e) => e,
                None => {
                    proof {
                        assert(false);
                    }
                    return None;
                },
            };
            self.conns.update(index, now + CONN_TIMEOUT_MS, e.ds_index);
            Some(e.peer)
        } else {
            None
        }
    }
}

/// What the client side promises each peer, in every state it reaches:
/// the poller key of every live connection leads to that connection, and
/// a packet from the server side arriving on its upstream socket goes to
/// the connection's peer, whatever connections opened or expired before.
pub proof fn lemma_client_replies_reach_sender(c: ClientCore, i: int)
    requires
        c.wf(),
        0 <= i < c.conns().entries().len(),
    ensures
        c.spec_classify(c.conns().entries()[i].1.key) == EventTarget::Upstream(i as usize),
        c.conns().entries()[i].0 == c.conns().entries()[i].1.peer.spec_key(),
{
    lemma_key_finds_connection(c.conns(), i);
    assert(c.conns().entries()[i].1.key < c.conns().next_key());
}

/// What a datagram from a downstream client does, in every state: it goes
/// out through the connection of that very client (whatever connections
/// expired before), registered under the key the route names; it goes to
/// the server side's address on the port the client is on now, whether the
/// connection is new or not; the connection then lives `CONN_TIMEOUT_MS`
/// from `now`; a known client keeps its connection's position and key; all
/// other connections stay as they were. A datagram is dropped only when
/// it would open a connection and every key is used.
pub proof fn lemma_client_datagram_uses_senders_connection(
    pre: ClientCore,
    post: ClientCore,
    src: Endpoint,
    now: u64,
    r: Option<Route>,
)
    requires
        pre.wf(),
        post.wf(),
        now <= TIME_LIMIT_MS,
        ClientCore::downstream_step(pre, post, src, now, r),
    ensures
        r is None ==> pre.conns().position_of(src) is None && pre.conns().next_key()
            == pre.conns().key_limit() && post.conns() == pre.conns(),
        r matches Some(route) ==> {
            let s = post.conns().entries();
            &&& route.index < s.len()
            &&& s[route.index as int].1.peer == src
            &&& s[route.index as int].1.key == route.key
            &&& s[route.index as int].1.timeout == now + CONN_TIMEOUT_MS
            &&& route.dst.spec_ip() == pre.opts().server_ip
            &&& route.dst.spec_port() == pre.us_port()
            &&& route.fresh == (pre.conns().position_of(src) is None)
            &&& !route.fresh ==> route.index == pre.conns().position_of(src).unwrap()
                && route.key == pre.conns().entries()[route.index as int].1.key
            &&& route.fresh ==> route.index == pre.conns().entries().len()
            &&& forall|j: int|
                0 <= j < pre.conns().entries().len() && j != route.index ==> #[trigger] s[j]
                    == pre.conns().entries()[j]
        },
{
    let p = pre.conns().entries();
    if let Some(k) = pre.conns().position_of(src) {
        assert(0 <= k < p.len() && p[k].0 == src.spec_key());
        assert(p[k].0 == p[k].1.peer.spec_key());
        crate::addr::lemma_key_injective(src, p[k].1.peer);
    }
}

/// What a datagram on a connection's upstream socket does, in every state:
/// one from the server's address on any port of the range, both bounds
/// included, goes back to the client that owns the connection and renews
/// the connection for `CONN_TIMEOUT_MS` from `now`, leaving the others as
/// they were; any other is dropped and changes nothing.
pub proof fn lemma_client_reply_goes_to_owner(
    pre: ClientCore,
    post: ClientCore,
    index: usize,
    src: Endpoint,
    now: u64,
    r: Option<Endpoint>,
)
    requires
        pre.wf(),
        index < pre.conns().entries().len(),
        now <= TIME_LIMIT_MS,
        ClientCore::upstream_step(pre, post, index, src, now, r),
    ensures
        src.spec_ip() == pre.opts().server_ip && pre.opts().server_pr_min <= src.spec_port()
            && src.spec_port() <= pre.opts().server_pr_max ==> {
            let s = post.conns().entries();
            &&& r == Some(pre.conns().entries()[index as int].1.peer)
            &&& s.len() == pre.conns().entries().len()
            &&& s[index as int].1.peer == pre.conns().entries()[index as int].1.peer
            &&& s[index as int].1.key == pre.conns().entries()[index as int].1.key
            &&& s[index as int].1.timeout == now + CONN_TIMEOUT_MS
            &&& forall|j: int|
                0 <= j < s.len() && j != index ==> #[trigger] s[j] == pre.conns().entries()[j]
        },
        !(src.spec_ip() == pre.opts().server_ip && pre.opts().server_pr_min <= src.spec_port()
            && src.spec_port() <= pre.opts().server_pr_max) ==> r is None && post.conns()
            == pre.conns(),
{
}

/// What the bookkeeping at time `now` does, in every state: the client
/// hops exactly when the clock has passed the hop deadline, to a port of
/// its range, and the deadline then moves on by exactly one interval;
/// otherwise port and deadline stay. The connections left are alive at
/// `now`, those alive are kept unchanged and found through their keys, the
/// others are gone, and the positions reported are exactly theirs.
pub proof fn lemma_client_tick(pre: ClientCore, post: ClientCore, now: u64, gone: Seq<usize>)
    requires
        pre.wf(),
        post.wf(),
        ClientCore::tick_step(pre, post, now, gone),
    ensures
        now > pre.hop_deadline() ==> {
            &&& post.hop_deadline() == pre.hop_deadline() + HOP_INTERVAL_MS
            &&& pre.opts().server_pr_min <= post.us_port() <= pre.opts().server_pr_max
        },
        now <= pre.hop_deadline() ==> post.us_port() == pre.us_port() && post.hop_deadline()
            == pre.hop_deadline(),
        forall|j: int|
            0 <= j < post.conns().entries().len() ==> (#[trigger] post.conns().entries()[j]).1.timeout
                > now,
        forall|i: int|
            0 <= i < pre.conns().entries().len() && (#[trigger] pre.conns().entries()[i]).1.timeout
                > now ==> post.conns().position_of_key(pre.conns().entries()[i].1.key) is Some,
        forall|i: int|
            0 <= i < pre.conns().entries().len() && (#[trigger] pre.conns().entries()[i]).1.timeout
                <= now ==> post.conns().position_of_key(pre.conns().entries()[i].1.key) is None,
        forall|x: usize|
            #[trigger] gone.contains(x) <==> (x < pre.conns().entries().len()
                && pre.conns().entries()[x as int].1.timeout <= now),
{
    lemma_expire_keeps_exactly_the_live(pre.conns(), post.conns(), now, gone);
}

/// A packet from a client and the reply to it: once a datagram of `src`
/// went out on a route, the key of that route leads to its connection, and
/// a datagram from the server's address on any port of the range, arriving
/// on that connection's upstream socket, goes back to `src`.
pub proof fn lemma_client_round_trip(
    c0: ClientCore,
    c1: ClientCore,
    src: Endpoint,
    now: u64,
    route: Route,
    c2: ClientCore,
    reply_from: Endpoint,
    later: u64,
    back: Option<Endpoint>,
)
    requires
        c0.wf(),
        c1.wf(),
        now <= TIME_LIMIT_MS,
        later <= TIME_LIMIT_MS,
        ClientCore::downstream_step(c0, c1, src, now, Some(route)),
        ClientCore::upstream_step(c1, c2, route.index, reply_from, later, back),
        reply_from.spec_ip() == c0.opts().server_ip,
        c0.opts().server_pr_min <= reply_from.spec_port() <= c0.opts().server_pr_max,
    ensures
        route.key != KEY_MAX ==> c1.spec_classify(route.key) == EventTarget::Upstream(route.index),
        back == Some(src),
{
    lemma_client_datagram_uses_senders_connection(c0, c1, src, now, Some(route));
    lemma_client_replies_reach_sender(c1, route.index as int);
}

/// How the client side reads poller keys, in every state: `KEY_MAX` is its
/// downstream socket, the key of every live connection leads to that
/// connection, and any other key leads nowhere.
pub proof fn lemma_client_classify(c: ClientCore, key: usize)
    requires
        c.wf(),
    ensures
        c.spec_classify(KEY_MAX) == EventTarget::Downstream(0),
        key != KEY_MAX && (forall|i: int|
            0 <= i < c.conns().entries().len() ==> (#[trigger] c.conns().entries()[i]).1.key
                != key) ==> c.spec_classify(key) == EventTarget::Spurious,
        forall|i: int|
            0 <= i < c.conns().entries().len() ==> c.spec_classify(
                (#[trigger] c.conns().entries()[i]).1.key,
            ) == EventTarget::Upstream(i as usize),
{
    assert forall|i: int| 0 <= i < c.conns().entries().len() implies c.spec_classify(
        (#[trigger] c.conns().entries()[i]).1.key,
    ) == EventTarget::Upstream(i as usize) by {
        lemma_client_replies_reach_sender(c, i);
    }
}

} // verus!
