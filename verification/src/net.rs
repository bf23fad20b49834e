//! Network addresses as plain values.
use crate::wire::same_bytes;
use vstd::prelude::*;

verus! {

/// An IP address by its bytes, the most significant first. One of the sixth
/// version goes with the label of its flow and with its scope; both are zero
/// where nothing is said of them.
#[derive(Debug, Clone, Copy, PartialEq, Eq)]
pub enum IpAddress {
    V4([u8; 4]),
    V6 { octets: [u8; 16], flow_info: u32, scope_id: u32 },
}

/// An IP address and a port.
#[derive(Debug, Clone, Copy, PartialEq, Eq)]
pub struct SocketAddress {
    pub ip: IpAddress,
    pub port: u16,
}

/// What a `SocketAddress` holds.
pub struct AddressView {
    /// Four bytes, or sixteen.
    pub ip: Seq<u8>,
    pub port: u16,
    /// Zero with four bytes, as is the scope.
    pub flow_info: u32,
    pub scope_id: u32,
}

/// An address without a flow label and a scope.
pub open spec fn plain_address(ip: Seq<u8>, port: u16) -> AddressView {
    AddressView { ip, port, flow_info: 0, scope_id: 0 }
}

impl View for SocketAddress {
    type V = AddressView;

    open spec fn view(&self) -> AddressView {
        match self.ip {
            IpAddress::V4(octets) => plain_address(octets@, self.port),
            IpAddress::V6 { octets, flow_info, scope_id } => AddressView {
                ip: octets@,
                port: self.port,
                flow_info,
                scope_id,
            },
        }
    }
}

/// What an optional address holds.
pub open spec fn opt_address(a: Option<SocketAddress>) -> Option<AddressView> {
    match a {
        Some(x) => Some(x@),
        None => None,
    }
}

impl SocketAddress {
    /// Tells whether two addresses are the same.
    pub fn same(&self, other: &SocketAddress) -> (r: bool)
        ensures
            r == (self@ == other@),
    {
        let ips: bool = match &self.ip {
            IpAddress::V4(a) => match &other.ip {
                IpAddress::V4(b) => same_bytes(a.as_slice(), b.as_slice()),
                IpAddress::V6 { octets, .. } => {
                    proof {
                        assert(a@.len() != octets@.len());
                    }
                    false
                },
            },
            IpAddress::V6 { octets: a, flow_info: f, scope_id: s } => match &other.ip {
                IpAddress::V4(b) => {
                    proof {
                        assert(a@.len() != b@.len());
                    }
                    false
                },
                IpAddress::V6 { octets: b, flow_info: g, scope_id: u } => same_bytes(
                    a.as_slice(),
                    b.as_slice(),
                ) && *f == *g && *s == *u,
            },
        };
        ips && self.port == other.port
    }
}

} // verus!
