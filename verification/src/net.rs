//! IP addresses and socket addresses as plain values.
use vstd::prelude::*;

verus! {

/// An IP address.
#[derive(Debug, Clone, Copy, PartialEq, Eq)]
pub enum IpAddress {
    /// An IPv4 address: its four octets.
    V4([u8; 4]),
    /// An IPv6 address: its eight segments.
    V6([u16; 8]),
}

/// The value of an IP address, its octets or segments taken as a sequence.
pub enum IpValue {
    /// The octets of an IPv4 address.
    V4(Seq<u8>),
    /// The segments of an IPv6 address.
    V6(Seq<u16>),
}

impl IpAddress {
    /// The octets or segments.
    pub open spec fn view(self) -> IpValue {
        match self {
            IpAddress::V4(o) => IpValue::V4(o@),
            IpAddress::V6(s) => IpValue::V6(s@),
        }
    }

    /// Whether this is the same address as `other`.
    pub fn same_as(&self, other: &IpAddress) -> (r: bool)
        ensures
            r == (self@ == other@),
    {
        match (self, other) {
            (IpAddress::V4(a), IpAddress::V4(b)) => {
                let r = a[0] == b[0] && a[1] == b[1] && a[2] == b[2] && a[3] == b[3];
                proof {
                    if r {
                        assert(a@ =~= b@);
                    }
                }
                r
            },
            (IpAddress::V6(a), IpAddress::V6(b)) => {
                let r = a[0] == b[0] && a[1] == b[1] && a[2] == b[2] && a[3] == b[3] && a[4] == b[4]
                    && a[5] == b[5] && a[6] == b[6] && a[7] == b[7];
                proof {
                    if r {
                        assert(a@ =~= b@);
                    }
                }
                r
            },
            _ => false,
        }
    }
}

/// The address that a piece of text writes, where it is an IP literal.
pub uninterp spec fn ip_literal(text: Seq<char>) -> Option<IpValue>;

/// The text that an IP address is written as.
pub uninterp spec fn ip_text(ip: IpValue) -> Seq<char>;

/// Reads an IP literal with the `FromStr` impl of `core::net::IpAddr`. The contract names
/// the result; it says no more of the accepted syntax than that the text decides.
#[verifier::external_body]
pub(crate) fn parse_ip(text: &str) -> (r: Option<IpAddress>)
    ensures
        match r {
            Some(ip) => ip_literal(text@) == Some(ip@),
            None => ip_literal(text@) is None,
        },
{
    match text.parse::<core::net::IpAddr>() {
        Ok(core::net::IpAddr::V4(a)) => Some(IpAddress::V4(a.octets())),
        Ok(core::net::IpAddr::V6(a)) => Some(IpAddress::V6(a.segments())),
        Err(_) => None,
    }
}

/// Writes an IP address with the `Display` impl of `core::net::IpAddr`. The contract
/// names the text; it leaves unsaid which of the spellings of an address that is.
#[verifier::external_body]
pub(crate) fn format_ip(ip: &IpAddress) -> (r: String)
    ensures
        r@ == ip_text(ip@),
{
    match ip {
        IpAddress::V4(o) => core::net::IpAddr::from(*o).to_string(),
        IpAddress::V6(s) => core::net::IpAddr::from(*s).to_string(),
    }
}

/// An IP address and a port.
#[derive(Debug, Clone, Copy, PartialEq, Eq)]
pub struct SocketAddr {
    /// The address.
    pub ip: IpAddress,
    /// The port.
    pub port: u16,
    /// The flow information of an IPv6 socket address; zero for IPv4.
    pub flowinfo: u32,
    /// The scope of an IPv6 socket address; zero for IPv4.
    pub scope_id: u32,
}

impl SocketAddr {
    /// A socket address with no flow information and no scope.
    pub fn new(ip: IpAddress, port: u16) -> (r: SocketAddr)
        ensures
            r == (SocketAddr { ip, port, flowinfo: 0, scope_id: 0 }),
    {
        SocketAddr { ip, port, flowinfo: 0, scope_id: 0 }
    }

    /// Whether the address is an IPv4 address.
    pub open spec fn v4(self) -> bool {
        self.ip is V4
    }

    /// Whether the address is an IPv4 address.
    pub fn is_ipv4(&self) -> (r: bool)
        ensures
            r == self.v4(),
    {
        match self.ip {
            IpAddress::V4(_) => true,
            IpAddress::V6(_) => false,
        }
    }

    /// Whether the address is an IPv6 address.
    pub fn is_ipv6(&self) -> (r: bool)
        ensures
            r == !self.v4(),
    {
        !self.is_ipv4()
    }
}

} // verus!
