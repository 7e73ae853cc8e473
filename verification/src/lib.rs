//! Verified core of a UDP port-hopping relay: the port-hopping sequence,
//! the per-socket send buffer, the connection table and the decisions of
//! the client and server event loops.

mod addr;
mod args;
mod client;
mod conns;
mod hopping;
mod server;
mod udp;
mod utils;

pub use addr::{ConnKey, Endpoint, IpAddress};
pub use args::{ClientOpts, ServerOpts, SubCommand, TopLevelCommand};
pub use client::ClientCore;
pub use conns::{
    ConnEntry, ConnTable, EventTarget, Route, CONN_TIMEOUT_MS, HOP_INTERVAL_MS, KEY_MAX, TIME_LIMIT_MS,
};
pub use hopping::ShufflingRand;
pub use server::ServerCore;
pub use udp::{
    lost_writability, BufferedSocket, FlushStep, Packet, SendAction, SendCall, SendOutcome,
    RING_BUF_SIZE, UDP_BUF_SIZE,
};
pub use utils::{cvt_recv_res, cvt_send_res};
