use vstd::prelude::*;

verus! {

/// The address of a simulated node: an IPv4 address, as a number, and a port.
#[derive(Clone, Copy, Debug, PartialEq, Eq, Hash, Structural)]
pub struct Addr {
    pub ip: u32,
    pub port: u16,
}

impl Addr {
    /// The address `ip:port`.
    pub fn new(ip: u32, port: u16) -> (r: Addr)
        ensures
            r.ip == ip,
            r.port == port,
    {
        Addr { ip, port }
    }
}

} // verus!
