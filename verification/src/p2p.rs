//! What is known of the network as a whole.
use vstd::prelude::*;

use crate::clock::unix_seconds;

verus! {

/// The state of the network.
#[derive(Debug)]
pub struct P2PNetwork {
    port: u16,
    peer_count: u32,
    is_running: bool,
}

#[derive(Debug, Clone, Copy)]
pub struct NetworkStats {
    pub peer_count: u32,
    pub is_running: bool,
    pub port: u16,
    pub uptime: u64,
}

impl P2PNetwork {
    /// The port of the node.
    pub closed spec fn port(&self) -> u16 {
        self.port
    }

    /// How many peers there are.
    pub closed spec fn peers(&self) -> u32 {
        self.peer_count
    }

    /// Whether the network runs.
    pub closed spec fn running(&self) -> bool {
        self.is_running
    }

    /// A network without peers that does not run yet.
    pub fn new(port: u16) -> (r: Self)
        ensures
            r.port() == port,
            r.peers() == 0,
            !r.running(),
    {
        P2PNetwork { port, peer_count: 0, is_running: false }
    }

    /// Takes note that the network runs, or that it does not.
    pub fn set_running(&mut self, is_running: bool)
        ensures
            final(self).running() == is_running,
            final(self).port() == old(self).port(),
            final(self).peers() == old(self).peers(),
    {
        self.is_running = is_running;
    }

    /// How many peers there are.
    pub fn get_peer_count(&self) -> (r: u32)
        ensures
            r == self.peers(),
    {
        self.peer_count
    }

    /// Takes note of how many peers there are.
    pub fn update_peer_count(&mut self, count: u32)
        ensures
            final(self).peers() == count,
            final(self).port() == old(self).port(),
            final(self).running() == old(self).running(),
    {
        self.peer_count = count;
    }

    /// Whether the network runs.
    pub fn is_running(&self) -> (r: bool)
        ensures
            r == self.running(),
    {
        self.is_running
    }

    /// What is known of the network. The time is that of the clock.
    pub fn get_network_stats(&self) -> (r: NetworkStats)
        ensures
            r.peer_count == self.peers(),
            r.is_running == self.running(),
            r.port == self.port(),
    {
        NetworkStats {
            peer_count: self.get_peer_count(),
            is_running: self.is_running(),
            port: self.port,
            uptime: unix_seconds(),
        }
    }
}

} // verus!
