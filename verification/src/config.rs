//! The configuration of the broker.

use vstd::prelude::*;

use crate::time::Duration;

verus! {

/// The address that the broker listens on.
#[derive(Debug, Clone, Copy, PartialEq, Eq)]
pub enum ListenAddr {
    /// An IPv4 address and a port.
    V4 { octets: [u8; 4], port: u16 },
    /// An IPv6 address with its flow information and scope, and a port.
    V6 { segments: [u16; 8], port: u16, flowinfo: u32, scope_id: u32 },
}

/// The configuration of a downstream worker.
#[derive(Debug)]
pub struct WorkerConfig {
    pub id: usize,
    /// How long the worker takes over each frame.
    pub processing_delay: Duration,
}

impl Clone for WorkerConfig {
    fn clone(&self) -> (copy: Self)
        ensures
            copy == *self,
    {
        WorkerConfig { id: self.id, processing_delay: self.processing_delay }
    }
}

/// The configuration of the broker.
#[derive(Debug)]
pub struct Config {
    pub listen_addr: ListenAddr,
    /// How many frames the broadcast channel holds.
    pub broadcast_capacity: usize,
    /// How many clients are served at once.
    pub max_num_connections: usize,
    /// How long a connection may stay without a frame.
    pub connection_timeout: Duration,
    /// Maximum time to wait for active tasks to drain during graceful shutdown.
    pub shutdown_timeout: Duration,
    pub workers: Vec<WorkerConfig>,
}

impl Clone for Config {
    fn clone(&self) -> (copy: Self)
        ensures
            copy.listen_addr == self.listen_addr,
            copy.broadcast_capacity == self.broadcast_capacity,
            copy.max_num_connections == self.max_num_connections,
            copy.connection_timeout == self.connection_timeout,
            copy.shutdown_timeout == self.shutdown_timeout,
            copy.workers@ == self.workers@,
    {
        let workers = self.workers.clone();
        assert(workers@ =~= self.workers@);
        Config {
            listen_addr: self.listen_addr,
            broadcast_capacity: self.broadcast_capacity,
            max_num_connections: self.max_num_connections,
            connection_timeout: self.connection_timeout,
            shutdown_timeout: self.shutdown_timeout,
            workers,
        }
    }
}

impl Default for Config {
    fn default() -> (config: Self)
        ensures
            config.listen_addr matches ListenAddr::V4 { octets, port } && octets@ == seq![
                0u8,
                0,
                0,
                0,
            ] && port == 7777,
            config.broadcast_capacity == 1024,
            config.max_num_connections == 48,
            config.connection_timeout@ == 30 * 1_000_000_000,
            config.shutdown_timeout@ == 10 * 1_000_000_000,
            config.workers@.len() == 3,
            config.workers@[0].id == 1,
            config.workers@[0].processing_delay@ == 0,
            config.workers@[1].id == 2,
            config.workers@[1].processing_delay@ == 1_000 * 1_000_000,
            config.workers@[2].id == 3,
            config.workers@[2].processing_delay@ == 110_000 * 1_000_000,
    {
        let octets: [u8; 4] = [0, 0, 0, 0];
        assert(octets@ =~= seq![0u8, 0, 0, 0]);
        Config {
            listen_addr: ListenAddr::V4 { octets, port: 7777 },
            broadcast_capacity: 1024,
            max_num_connections: 48,
            connection_timeout: Duration::from_secs(30),
            shutdown_timeout: Duration::from_secs(10),
            workers: vec![
                WorkerConfig { id: 1, processing_delay: Duration::from_millis(0) },
                WorkerConfig { id: 2, processing_delay: Duration::from_millis(1000) },
                WorkerConfig { id: 3, processing_delay: Duration::from_millis(110000) },
            ],
        }
    }
}

impl Config {
    /// Sets the address to listen on.
    pub fn with_listen_addr(self, addr: ListenAddr) -> (config: Self)
        ensures
            config == (Config { listen_addr: addr, ..self }),
    {
        let mut config = self;
        config.listen_addr = addr;
        config
    }

    /// Sets how many frames the broadcast channel holds.
    pub fn with_broadcast_capacity(self, capacity: usize) -> (config: Self)
        ensures
            config == (Config { broadcast_capacity: capacity, ..self }),
    {
        let mut config = self;
        config.broadcast_capacity = capacity;
        config
    }

    /// Sets how many clients are served at once.
    pub fn with_max_num_connections(self, max_num_connections: usize) -> (config: Self)
        ensures
            config == (Config { max_num_connections, ..self }),
    {
        let mut config = self;
        config.max_num_connections = max_num_connections;
        config
    }

    /// Sets the graceful shutdown timeout.
    pub fn with_shutdown_timeout(self, timeout: Duration) -> (config: Self)
        ensures
            config == (Config { shutdown_timeout: timeout, ..self }),
    {
        let mut config = self;
        config.shutdown_timeout = timeout;
        config
    }
}

} // verus!
