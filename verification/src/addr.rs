//! The addresses that a node listens on and the ones that it tells others.

use vstd::prelude::*;

verus! {

/// An IP address as a number.
#[derive(Debug, Clone, Copy, PartialEq, Eq, Structural)]
pub enum Host {
    V4(u32),
    V6(u128),
}

impl Host {
    /// The address that stands for every address of the machine.
    pub open spec fn unspecified(self) -> bool {
        match self {
            Host::V4(a) => a == 0,
            Host::V6(a) => a == 0,
        }
    }

    /// Whether this is the address that stands for every address of the
    /// machine.
    pub fn is_unspecified(&self) -> (r: bool)
        ensures
            r == self.unspecified(),
    {
        match self {
            Host::V4(a) => *a == 0,
            Host::V6(a) => *a == 0,
        }
    }
}

/// An IP address and a port.
#[derive(Debug, Clone, Copy, PartialEq, Eq, Structural)]
pub struct Endpoint {
    pub host: Host,
    pub port: u16,
}

/// Why no address could be advertised.
#[derive(Debug, Clone, Copy, PartialEq, Eq, Structural)]
pub enum AddrError {
    /// The node listens on every address and the machine named none of its
    /// own.
    NoLocalAddress,
}

/// The address that a node advertises. A configured address is taken as it
/// is. Without one the node advertises the address that it listens on; where
/// that stands for every address of the machine, it advertises the machine's
/// own address `local` with the port that it listens on.
pub fn resolve_advertise_addr(listen: Endpoint, advertise: Option<Endpoint>, local: Option<Host>) -> (r:
    Result<Endpoint, AddrError>)
    ensures
        r == match advertise {
            Some(a) => Ok::<Endpoint, AddrError>(a),
            None => if listen.host.unspecified() {
                match local {
                    Some(ip) => Ok(Endpoint { host: ip, port: listen.port }),
                    None => Err(AddrError::NoLocalAddress),
                }
            } else {
                Ok(listen)
            },
        },
{
    match advertise {
        Some(a) => Ok(a),
        None => {
            if listen.host.is_unspecified() {
                match local {
                    Some(ip) => Ok(Endpoint { host: ip, port: listen.port }),
                    None => Err(AddrError::NoLocalAddress),
                }
            } else {
                Ok(listen)
            }
        },
    }
}

} // verus!
