use vstd::prelude::*;

verus! {

/// Default TCP port of the bootstrap side channel.
pub const DEFAULT_TCP_PORT: usize = 18515;

/// Default adapter port number.
pub const DEFAULT_IB_PORT: u8 = 1;

/// Default GID index; a non-negative index selects global addressing.
pub const DEFAULT_GID_INDEX: i32 = 0;

/// Runtime configuration of one process. The process acts as server when no
/// peer host is given, as client otherwise.
pub struct RdmaOpt {
    /// Peer host to connect to; `None` makes this process the server.
    pub server: Option<String>,
    /// TCP port of the bootstrap side channel.
    pub tcp_port: usize,
    /// Adapter device name; `None` selects the first device found.
    pub ib_devname: Option<String>,
    /// GID index of the local port; negative means local-only addressing.
    pub gidx: i32,
    /// Port number of the adapter device.
    pub ib_port: u8,
}

impl Default for RdmaOpt {
    /// The documented defaults: server role, port 18515, first device,
    /// GID index 0, adapter port 1.
    fn default() -> (r: Self)
        ensures
            r.server is None,
            r.tcp_port == DEFAULT_TCP_PORT,
            r.ib_devname is None,
            r.gidx == DEFAULT_GID_INDEX,
            r.ib_port == DEFAULT_IB_PORT,
    {
        RdmaOpt {
            server: None,
            tcp_port: DEFAULT_TCP_PORT,
            ib_devname: None,
            gidx: DEFAULT_GID_INDEX,
            ib_port: DEFAULT_IB_PORT,
        }
    }
}

/// One key-value operation, as issued by a client and decoded by the server.
#[derive(Debug, PartialEq, Eq)]
pub enum KeyValueOpt {
    /// Look a key up; the server answers with the value or a sentinel.
    Get { key: String },
    /// Insert a key or overwrite its value.
    Put { key: String, value: String },
    /// Remove a key.
    Delete { key: String },
}

} // verus!
