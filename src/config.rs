//! Process-wide server settings, passed to the server when it is built.
use vstd::prelude::*;

verus! {

/// Number of bytes read from a connection before the request is parsed.
pub const READ_BUFFER_SIZE: usize = 1024;

/// Port the server listens on, on the IPv4 loopback address.
pub const DEFAULT_PORT: u16 = 3000;

/// Relies on `num_cpus::get`: the number of logical processors available to
/// this process, documented to be at least one.
#[verifier::external_body]
fn available_processors() -> (r: usize)
    ensures
        r >= 1,
{
    num_cpus::get()
}

/// Settings of one server: where it listens, how much of a request it reads,
/// and how many workers serve the connections.
pub struct ServerConfig {
    pub port: u16,
    pub buffer_size: usize,
    pub pool_size: usize,
}

impl ServerConfig {
    /// A configuration is usable when it reads at least one byte and runs at
    /// least one worker.
    pub open spec fn wf(&self) -> bool {
        self.buffer_size >= 1 && self.pool_size >= 1
    }

    /// The settings of the standard server: port 3000, a 1024-byte read
    /// buffer, and one worker per processor available to this process.
    pub fn for_this_host() -> (r: ServerConfig)
        ensures
            r.port == DEFAULT_PORT,
            r.buffer_size == READ_BUFFER_SIZE,
            r.pool_size >= 1,
            r.wf(),
    {
        let workers = available_processors();
        ServerConfig { port: DEFAULT_PORT, buffer_size: READ_BUFFER_SIZE, pool_size: workers }
    }

    /// Settings with an explicit port, buffer size and pool size; `None`
    /// when the buffer or the pool would be empty.
    pub fn new(port: u16, buffer_size: usize, pool_size: usize) -> (r: Option<ServerConfig>)
        ensures
            r is Some <==> (buffer_size >= 1 && pool_size >= 1),
            r matches Some(c) ==> (c.port == port && c.buffer_size == buffer_size
                && c.pool_size == pool_size && c.wf()),
    {
        if buffer_size == 0 || pool_size == 0 {
            None
        } else {
            Some(ServerConfig { port, buffer_size, pool_size })
        }
    }
}

} // verus!
