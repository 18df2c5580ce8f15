//! Domain values of the configuration model.
use vstd::prelude::*;
use vstd::utf8::is_ascii_chars;

verus! {

/// A 32-byte cryptographic key (public, private or preshared).
#[derive(Clone, Copy, Debug)]
pub struct Key(pub [u8; 32]);

/// An IP address, as its network-order bytes.
#[derive(Clone, Copy, Debug)]
pub enum IpAddress {
    V4([u8; 4]),
    V6([u8; 16]),
}

/// A socket address: an IP address and a port (plus the IPv6 flow and scope fields).
#[derive(Clone, Copy, Debug)]
pub enum SocketAddress {
    V4 { ip: [u8; 4], port: u16 },
    V6 { ip: [u8; 16], port: u16, flowinfo: u32, scope_id: u32 },
}

/// A point in time as seconds and nanoseconds since the Unix epoch.
#[derive(Clone, Copy, Debug)]
pub struct Timestamp {
    pub secs: u64,
    pub nanos: u32,
}

/// One routable range granted to a peer.
#[derive(Clone, Copy, Debug)]
pub struct AllowedIp {
    pub address: IpAddress,
    pub cidr: u8,
}

/// The configuration of one peer, identified by its public key.
#[derive(Clone, Debug)]
pub struct PeerConfig {
    pub public_key: Key,
    pub preshared_key: Option<Key>,
    pub endpoint: Option<SocketAddress>,
    pub persistent_keepalive_interval: Option<u16>,
    pub allowed_ips: Vec<AllowedIp>,
}

/// A peer configuration together with the one-shot write flags.
#[derive(Clone, Debug)]
pub struct PeerConfigBuilder {
    pub public_key: Key,
    pub preshared_key: Option<Key>,
    pub endpoint: Option<SocketAddress>,
    pub persistent_keepalive_interval: Option<u16>,
    pub allowed_ips: Vec<AllowedIp>,
    pub remove_me: bool,
    pub replace_allowed_ips: bool,
}

/// Counters and handshake time that the kernel reports for a peer.
#[derive(Clone, Copy, Debug)]
pub struct PeerStats {
    pub last_handshake_time: Option<Timestamp>,
    pub rx_bytes: u64,
    pub tx_bytes: u64,
}

/// The read-side view of one peer.
#[derive(Clone, Debug)]
pub struct PeerInfo {
    pub config: PeerConfig,
    pub stats: PeerStats,
}

/// Which configuration backend produced a device snapshot.
#[derive(Clone, Copy, Debug)]
pub enum Backend {
    Kernel,
    Userspace,
}

/// A validated network interface name: 1 to 15 bytes, none of them NUL, '/' or ASCII whitespace.
#[derive(Debug)]
pub struct InterfaceName {
    name: String,
}

/// The read-side view of one tunnel interface.
#[derive(Clone, Debug)]
pub struct Device {
    pub name: InterfaceName,
    pub public_key: Option<Key>,
    pub private_key: Option<Key>,
    pub listen_port: Option<u16>,
    pub fwmark: Option<u32>,
    pub peers: Vec<PeerInfo>,
    pub backend: Backend,
}

/// A write-side request for one device.
#[derive(Clone, Debug)]
pub struct DeviceUpdate {
    pub private_key: Option<Key>,
    pub fwmark: Option<u32>,
    pub listen_port: Option<u16>,
    pub replace_peers: bool,
    pub peers: Vec<PeerConfigBuilder>,
}

/// Why a value could not be decoded or an operation failed.
#[derive(Clone, Copy, Debug, PartialEq, Eq, Structural)]
pub enum WgError {
    /// A record that identifies the entity is absent.
    RequiredFieldMissing,
    /// An interface name failed validation.
    InvalidName,
    /// The link already exists.
    AlreadyExists,
    /// A response did not have the expected shape.
    InvalidResponse,
    /// Any other error reported by the transport, by its OS error code.
    Transport(i32),
}

/// Whether `b` may stand in an interface name.
pub open spec fn name_byte_ok(b: u8) -> bool {
    b != 0 && b != 0x2f && b != 0x20 && b != 0x09 && b != 0x0a && b != 0x0c && b != 0x0d
}

/// Whether `s` is a valid interface name.
pub open spec fn valid_name(s: Seq<u8>) -> bool {
    0 < s.len() < 16 && forall|i: int| 0 <= i < s.len() ==> name_byte_ok(#[trigger] s[i])
}

impl InterfaceName {
    pub closed spec fn view(&self) -> Seq<u8> {
        self.name@.map_values(|c: char| c as u8)
    }

    /// The name as characters.
    pub closed spec fn as_str_spec(&self) -> Seq<char> {
        self.name@
    }

    #[verifier::type_invariant]
    pub closed spec fn wf(&self) -> bool {
        valid_name(self@) && is_ascii_chars(self.name@)
    }

    /// Parses and validates an interface name.
    pub fn from_str(s: &str) -> (r: Result<InterfaceName, WgError>)
        ensures
            match r {
                Ok(n) => n.wf() && valid_name(n@) && n@ == s@.map_values(|c: char| c as u8)
                    && is_ascii_chars(s@),
                Err(e) => e == WgError::InvalidName && !(is_ascii_chars(s@)
                    && valid_name(s@.map_values(|c: char| c as u8))),
            },
    {
        if !s.is_ascii() {
            return Err(WgError::InvalidName);
        }
        let bytes = s.as_bytes();
        let n = bytes.len();
        if n == 0 || n >= 16 {
            return Err(WgError::InvalidName);
        }
        let mut i: usize = 0;
        while i < n
            invariant
                n == bytes@.len(),
                bytes@ == s@.map_values(|c: char| c as u8),
                0 <= i <= n,
                forall|j: int| 0 <= j < i ==> name_byte_ok(#[trigger] bytes@[j]),
            decreases n - i,
        {
            let b = bytes[i];
            if b == 0 || b == 0x2f || b == 0x20 || b == 0x09 || b == 0x0a || b == 0x0c || b == 0x0d {
                return Err(WgError::InvalidName);
            }
            i = i + 1;
        }
        Ok(InterfaceName { name: s.to_string() })
    }


    /// A copy of the name.
    pub fn clone(&self) -> (r: InterfaceName)
        ensures
            r@ == self@,
    {
        proof {
            use_type_invariant(self);
        }
        InterfaceName { name: self.name.clone() }
    }

    /// The name as a string.
    pub fn as_str(&self) -> (r: &str)
        ensures
            r@.map_values(|c: char| c as u8) == self@,
            r@.len() == self@.len(),
            r@ == self.as_str_spec(),
            valid_name(self@),
    {
        proof {
            use_type_invariant(self);
        }
        self.name.as_str()
    }
}

impl Clone for InterfaceName {
    fn clone(&self) -> (r: InterfaceName)
        ensures
            r@ == self@,
    {
        InterfaceName::clone(self)
    }
}

} // verus!
