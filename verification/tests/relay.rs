use rand::rngs::SmallRng;
use rand::SeedableRng;
use udp_hopper::{
    ClientCore, ClientOpts, ConnEntry, ConnTable, Endpoint, EventTarget, IpAddress, Route,
    ServerCore, ServerOpts, CONN_TIMEOUT_MS, HOP_INTERVAL_MS, KEY_MAX,
};

fn v4(last: u8, port: u16) -> Endpoint {
    Endpoint::V4 { ip: 0x0a000000 | last as u32, port }
}

const SERVER_IP: u32 = 0xc0a80001;

fn client() -> ClientCore {
    let opts = ClientOpts {
        listen_addr: v4(1, 5000),
        server_ip: IpAddress::V4(SERVER_IP),
        server_pr_min: 20000,
        server_pr_max: 20003,
    };
    ClientCore::new(opts, SmallRng::seed_from_u64(11), 0)
}

fn server() -> ServerCore {
    ServerCore::new(ServerOpts {
        listen_ip: IpAddress::V4(0),
        pr_min: 20000,
        pr_max: 20003,
        us_addr: v4(99, 443),
    })
}

#[test]
fn endpoint_basics() {
    let e = Endpoint::new(IpAddress::V6(1), 80);
    assert_eq!(e, Endpoint::V6 { ip: 1, port: 80, flowinfo: 0, scope_id: 0 });
    assert_eq!(e.port(), 80);
    assert_eq!(e.ip(), IpAddress::V6(1));
    assert_eq!(e.key(), (true, 1, 80, 0, 0));
    assert_eq!(v4(2, 7).key(), (false, 0x0a000002, 7, 0, 0));
    assert_eq!(IpAddress::V4(5).unspecified(), IpAddress::V4(0));
    assert_eq!(IpAddress::V6(5).unspecified(), IpAddress::V6(0));
}

#[test]
fn table_insert_update_find_and_expire() {
    let mut t = ConnTable::new(10);
    assert_eq!(t.len(), 0);
    assert_eq!(t.insert(v4(1, 1), 100, 0), Some((0, 0)));
    assert_eq!(t.insert(v4(2, 2), 50, 1), Some((1, 1)));
    assert_eq!(t.insert(v4(3, 3), 300, 2), Some((2, 2)));
    assert_eq!(t.find(&v4(2, 2)), Some(1));
    assert_eq!(t.find(&v4(4, 4)), None);
    assert_eq!(t.find_key(2), Some(2));
    assert_eq!(t.find_key(3), None);
    // Renewing keeps the position and the key.
    t.update(0, 40, 5);
    assert_eq!(t.get(0), Some(ConnEntry { peer: v4(1, 1), key: 0, timeout: 40, ds_index: 5 }));
    assert_eq!(t.get(3), None);
    // At 50, the first two are over; the third moves to the front but
    // keeps its key.
    assert_eq!(t.expire(50), vec![0, 1]);
    assert_eq!(t.len(), 1);
    assert_eq!(t.get(0), Some(ConnEntry { peer: v4(3, 3), key: 2, timeout: 300, ds_index: 2 }));
    assert_eq!(t.find(&v4(3, 3)), Some(0));
    assert_eq!(t.find_key(2), Some(0));
    assert_eq!(t.find_key(0), None);
    // Keys are not reused.
    assert_eq!(t.insert(v4(1, 1), 400, 0), Some((1, 3)));
    assert_eq!(t.expire(299), Vec::<usize>::new());
    assert_eq!(t.expire(300), vec![0]);
    assert_eq!(t.len(), 1);
    assert_eq!(t.find_key(3), Some(0));
}

#[test]
fn table_runs_out_of_keys() {
    let mut t = ConnTable::new(1);
    assert_eq!(t.insert(v4(1, 1), 100, 0), Some((0, 0)));
    assert_eq!(t.insert(v4(2, 2), 100, 0), None);
    assert_eq!(t.len(), 1);
}

#[test]
fn client_sends_to_current_port_and_classifies_keys() {
    let mut c = client();
    let port = c.upstream_port();
    assert!((20000..=20003).contains(&port));
    assert_eq!(c.bind_ip(), IpAddress::V4(0));
    assert_eq!(c.classify(KEY_MAX), EventTarget::Downstream(0));
    assert_eq!(c.classify(0), EventTarget::Spurious);
    let dst = Endpoint::V4 { ip: SERVER_IP, port };
    assert_eq!(
        c.on_downstream(v4(7, 7000), 10),
        Some(Route { index: 0, key: 0, fresh: true, dst })
    );
    assert_eq!(c.classify(0), EventTarget::Upstream(0));
    assert_eq!(
        c.on_downstream(v4(7, 7000), 20),
        Some(Route { index: 0, key: 0, fresh: false, dst })
    );
    assert_eq!(
        c.on_downstream(v4(8, 7000), 20),
        Some(Route { index: 1, key: 1, fresh: true, dst })
    );
    assert_eq!(c.conn_count(), 2);
}

#[test]
fn client_forwards_only_server_replies() {
    let mut c = client();
    let r = c.on_downstream(v4(7, 7000), 0).unwrap();
    // From the server, on a port of the range: goes back to the peer.
    assert_eq!(
        c.on_upstream(r.index, Endpoint::V4 { ip: SERVER_IP, port: 20002 }, 5),
        Some(v4(7, 7000))
    );
    // Right address, port out of the range: dropped.
    assert_eq!(c.on_upstream(r.index, Endpoint::V4 { ip: SERVER_IP, port: 20004 }, 5), None);
    // Another host: dropped.
    assert_eq!(c.on_upstream(r.index, v4(9, 20001), 5), None);
}

#[test]
fn client_replies_survive_an_older_connection_expiring() {
    let mut c = client();
    let r1 = c.on_downstream(v4(1, 1000), 0).unwrap();
    let r2 = c.on_downstream(v4(2, 2000), 1000).unwrap();
    assert_eq!((r1.key, r2.key), (0, 1));
    // s1's connection expires, s2's stays.
    assert_eq!(c.tick(CONN_TIMEOUT_MS), vec![0]);
    assert_eq!(c.conn_count(), 1);
    // The key s2's socket was registered under still leads to it.
    let i = match c.classify(r2.key) {
        EventTarget::Upstream(i) => i,
        other => panic!("unexpected {:?}", other),
    };
    assert_eq!(i, 0);
    assert_eq!(c.on_upstream(i, Endpoint::V4 { ip: SERVER_IP, port: 20001 }, CONN_TIMEOUT_MS), Some(v4(2, 2000)));
    // s1's old key leads nowhere.
    assert_eq!(c.classify(r1.key), EventTarget::Spurious);
}

#[test]
fn client_traffic_renews_the_timeout() {
    let mut c = client();
    let r = c.on_downstream(v4(7, 7000), 0).unwrap();
    // A server reply at 1000 moves the timeout to 1000 + CONN_TIMEOUT_MS.
    let _ = c.on_upstream(r.index, Endpoint::V4 { ip: SERVER_IP, port: 20000 }, 1000);
    assert_eq!(c.tick(CONN_TIMEOUT_MS), Vec::<usize>::new());
    assert_eq!(c.conn_count(), 1);
    assert_eq!(c.tick(CONN_TIMEOUT_MS + 1000), vec![0]);
    assert_eq!(c.conn_count(), 0);
}

#[test]
fn client_hops_once_per_interval_through_all_ports() {
    let mut c = client();
    let mut ports = vec![c.upstream_port()];
    // Not yet due: the port stays.
    let _ = c.tick(HOP_INTERVAL_MS);
    assert_eq!(c.upstream_port(), ports[0]);
    for k in 1..4u64 {
        let _ = c.tick(k * HOP_INTERVAL_MS + 1);
        ports.push(c.upstream_port());
    }
    ports.sort();
    assert_eq!(ports, vec![20000, 20001, 20002, 20003]);
}

#[test]
fn client_accepts_the_full_port_range() {
    let opts = ClientOpts {
        listen_addr: v4(1, 5000),
        server_ip: IpAddress::V4(SERVER_IP),
        server_pr_min: 0,
        server_pr_max: 65535,
    };
    let c = ClientCore::new(opts, SmallRng::seed_from_u64(3), 0);
    let _ = c.upstream_port();
}

#[test]
fn server_keys_and_ports() {
    let s = server();
    assert_eq!(s.ds_count(), 4);
    assert_eq!(s.ds_port(0), 20000);
    assert_eq!(s.ds_port(3), 20003);
    for i in 0..4 {
        assert_eq!(s.classify(s.ds_key(i)), EventTarget::Downstream(i));
    }
    assert_eq!(s.ds_key(0), KEY_MAX);
    assert_eq!(s.classify(KEY_MAX - 4), EventTarget::Spurious);
    assert_eq!(s.classify(0), EventTarget::Spurious);
    assert_eq!(s.bind_ip(), IpAddress::V4(0));
    assert_eq!(s.upstream_addr(), v4(99, 443));
}

#[test]
fn server_full_port_range() {
    let s = ServerCore::new(ServerOpts {
        listen_ip: IpAddress::V4(0),
        pr_min: 0,
        pr_max: 65535,
        us_addr: v4(99, 443),
    });
    assert_eq!(s.ds_count(), 65536);
    assert_eq!(s.ds_port(65535), 65535);
    assert_eq!(s.classify(s.ds_key(65535)), EventTarget::Downstream(65535));
}

#[test]
fn server_answers_through_the_last_socket() {
    let mut s = server();
    let up = v4(99, 443);
    assert_eq!(
        s.on_downstream(2, v4(5, 6000), 0),
        Some(Route { index: 0, key: 0, fresh: true, dst: up })
    );
    assert_eq!(s.classify(0), EventTarget::Upstream(0));
    assert_eq!(s.on_upstream(0, up), Some((2, v4(5, 6000))));
    // The peer hops to another port: replies follow it.
    assert_eq!(
        s.on_downstream(1, v4(5, 6000), 10),
        Some(Route { index: 0, key: 0, fresh: false, dst: up })
    );
    assert_eq!(s.on_upstream(0, up), Some((1, v4(5, 6000))));
    // Not from the upstream server: dropped.
    assert_eq!(s.on_upstream(0, v4(99, 444)), None);
}

#[test]
fn server_replies_survive_an_older_connection_expiring() {
    let mut s = server();
    let up = v4(99, 443);
    let r1 = s.on_downstream(0, v4(1, 1000), 0).unwrap();
    let r2 = s.on_downstream(3, v4(2, 2000), 1000).unwrap();
    assert_eq!(s.tick(CONN_TIMEOUT_MS), vec![0]);
    let i = match s.classify(r2.key) {
        EventTarget::Upstream(i) => i,
        other => panic!("unexpected {:?}", other),
    };
    assert_eq!(s.on_upstream(i, up), Some((3, v4(2, 2000))));
    assert_eq!(s.classify(r1.key), EventTarget::Spurious);
}

#[test]
fn server_keeps_the_first_timeout() {
    let mut s = server();
    let _ = s.on_downstream(0, v4(5, 6000), 0);
    let _ = s.on_downstream(1, v4(5, 6000), 1000);
    assert_eq!(s.tick(CONN_TIMEOUT_MS), vec![0]);
    assert_eq!(s.conn_count(), 0);
}
