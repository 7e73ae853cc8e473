use crate::addr::{Endpoint, IpAddress};
use vstd::prelude::*;

verus! {

/// The command line: which side of the relay to run.
#[derive(Clone, Copy, Debug)]
pub struct TopLevelCommand {
    pub inner: SubCommand,
}

#[derive(Clone, Copy, Debug)]
pub enum SubCommand {
    Client(ClientOpts),
    Server(ServerOpts),
}

/// The server side: it listens on every port of `pr_min..=pr_max` of
/// `listen_ip` and forwards to the upstream server `us_addr`.
#[derive(Clone, Copy, Debug)]
pub struct ServerOpts {
    pub listen_ip: IpAddress,
    pub pr_min: u16,
    pub pr_max: u16,
    pub us_addr: Endpoint,
}

/// The client side: it accepts client traffic on `listen_addr` and sends it
/// to the server side at `server_ip`, on a port of
/// `server_pr_min..=server_pr_max` that changes from time to time.
#[derive(Clone, Copy, Debug)]
pub struct ClientOpts {
    pub listen_addr: Endpoint,
    pub server_ip: IpAddress,
    pub server_pr_min: u16,
    pub server_pr_max: u16,
}

} // verus!
