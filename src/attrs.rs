//! Typed attribute records of the tunnel-configuration protocol and their encoded sizes.
//!
//! Every record is a netlink attribute: a 4-byte header followed by its value, the whole
//! padded to a multiple of 4 bytes. A list entry (one allowed IP, one peer) is itself an
//! attribute whose value is the concatenation of its records.
use vstd::prelude::*;
use crate::model::{IpAddress, SocketAddress, Timestamp};

verus! {

/// Address family tag of IPv4.
pub const AF_INET: u16 = 2;
/// Address family tag of IPv6.
pub const AF_INET6: u16 = 10;
/// Device flag: replace the whole peer set.
pub const WGDEVICE_F_REPLACE_PEERS: u32 = 1;
/// Peer flag: remove this peer.
pub const WGPEER_F_REMOVE_ME: u32 = 1;
/// Peer flag: replace this peer's allowed IPs instead of adding to them.
pub const WGPEER_F_REPLACE_ALLOWEDIPS: u32 = 2;

/// A record of one allowed-IP entry.
#[derive(Clone, Copy, Debug)]
pub enum AllowedIpAttr {
    Family(u16),
    IpAddr(IpAddress),
    Cidr(u8),
}

/// A record of one peer.
#[derive(Clone, Debug)]
pub enum PeerAttr {
    PublicKey([u8; 32]),
    PresharedKey([u8; 32]),
    Endpoint(SocketAddress),
    PersistentKeepalive(u16),
    LastHandshake(Timestamp),
    RxBytes(u64),
    TxBytes(u64),
    AllowedIps(Vec<Vec<AllowedIpAttr>>),
    ProtocolVersion(u32),
    Flags(u32),
}

/// A record of one device.
#[derive(Clone, Debug)]
pub enum DeviceAttr {
    IfIndex(u32),
    IfName(String),
    PrivateKey([u8; 32]),
    PublicKey([u8; 32]),
    ListenPort(u16),
    Fwmark(u32),
    Flags(u32),
    Peers(Vec<Vec<PeerAttr>>),
}

/// Size of an attribute whose value takes `value_len` bytes: header plus value, padded to 4.
pub open spec fn nla_len(value_len: nat) -> nat {
    ((value_len + 7) / 4 * 4) as nat
}

pub open spec fn allowed_attr_len(a: AllowedIpAttr) -> nat {
    match a {
        AllowedIpAttr::Family(_) => nla_len(2),
        AllowedIpAttr::IpAddr(IpAddress::V4(_)) => nla_len(4),
        AllowedIpAttr::IpAddr(IpAddress::V6(_)) => nla_len(16),
        AllowedIpAttr::Cidr(_) => nla_len(1),
    }
}

/// Encoded size of a sequence of allowed-IP records.
pub open spec fn allowed_attrs_len(s: Seq<AllowedIpAttr>) -> nat
    decreases s.len(),
{
    if s.len() == 0 {
        0
    } else {
        allowed_attrs_len(s.drop_last()) + allowed_attr_len(s.last())
    }
}

/// Encoded size of a list of allowed-IP entries, each one wrapped as a nested attribute.
pub open spec fn allowed_list_len(s: Seq<Vec<AllowedIpAttr>>) -> nat
    decreases s.len(),
{
    if s.len() == 0 {
        0
    } else {
        allowed_list_len(s.drop_last()) + 4 + allowed_attrs_len(s.last()@)
    }
}

pub open spec fn peer_attr_len(a: PeerAttr) -> nat {
    match a {
        PeerAttr::PublicKey(_) => nla_len(32),
        PeerAttr::PresharedKey(_) => nla_len(32),
        PeerAttr::Endpoint(SocketAddress::V4 { .. }) => nla_len(16),
        PeerAttr::Endpoint(SocketAddress::V6 { .. }) => nla_len(28),
        PeerAttr::PersistentKeepalive(_) => nla_len(2),
        PeerAttr::LastHandshake(_) => nla_len(16),
        PeerAttr::RxBytes(_) => nla_len(8),
        PeerAttr::TxBytes(_) => nla_len(8),
        PeerAttr::AllowedIps(v) => nla_len(allowed_list_len(v@)),
        PeerAttr::ProtocolVersion(_) => nla_len(4),
        PeerAttr::Flags(_) => nla_len(4),
    }
}

/// Encoded size of the records of one peer.
pub open spec fn peer_attrs_len(s: Seq<PeerAttr>) -> nat
    decreases s.len(),
{
    if s.len() == 0 {
        0
    } else {
        peer_attrs_len(s.drop_last()) + peer_attr_len(s.last())
    }
}

/// Encoded size of a list of peers, each one wrapped as a nested attribute.
pub open spec fn peer_list_len(s: Seq<Vec<PeerAttr>>) -> nat
    decreases s.len(),
{
    if s.len() == 0 {
        0
    } else {
        peer_list_len(s.drop_last()) + 4 + peer_attrs_len(s.last()@)
    }
}

/// Encoded size of one device record. A name is counted by characters, which are its bytes
/// for the ASCII names that interface-name validation admits; it carries a trailing NUL.
pub open spec fn device_attr_len(a: DeviceAttr) -> nat {
    match a {
        DeviceAttr::IfIndex(_) => nla_len(4),
        DeviceAttr::IfName(s) => nla_len(s@.len() + 1),
        DeviceAttr::PrivateKey(_) => nla_len(32),
        DeviceAttr::PublicKey(_) => nla_len(32),
        DeviceAttr::ListenPort(_) => nla_len(2),
        DeviceAttr::Fwmark(_) => nla_len(4),
        DeviceAttr::Flags(_) => nla_len(4),
        DeviceAttr::Peers(v) => nla_len(peer_list_len(v@)),
    }
}

/// Encoded size of a sequence of device records: the payload of one message.
pub open spec fn device_attrs_len(s: Seq<DeviceAttr>) -> nat
    decreases s.len(),
{
    if s.len() == 0 {
        0
    } else {
        device_attrs_len(s.drop_last()) + device_attr_len(s.last())
    }
}

pub proof fn lemma_allowed_attrs_len_prefix(s: Seq<AllowedIpAttr>, i: int)
    requires
        0 <= i <= s.len(),
    ensures
        allowed_attrs_len(s.take(i)) <= allowed_attrs_len(s),
    decreases s.len(),
{
    if i < s.len() {
        assert(s.drop_last().take(i) =~= s.take(i));
        lemma_allowed_attrs_len_prefix(s.drop_last(), i);
    } else {
        assert(s.take(i) =~= s);
    }
}

pub proof fn lemma_allowed_list_len_prefix(s: Seq<Vec<AllowedIpAttr>>, i: int)
    requires
        0 <= i <= s.len(),
    ensures
        allowed_list_len(s.take(i)) <= allowed_list_len(s),
    decreases s.len(),
{
    if i < s.len() {
        assert(s.drop_last().take(i) =~= s.take(i));
        lemma_allowed_list_len_prefix(s.drop_last(), i);
    } else {
        assert(s.take(i) =~= s);
    }
}

pub proof fn lemma_peer_attrs_len_prefix(s: Seq<PeerAttr>, i: int)
    requires
        0 <= i <= s.len(),
    ensures
        peer_attrs_len(s.take(i)) <= peer_attrs_len(s),
    decreases s.len(),
{
    if i < s.len() {
        assert(s.drop_last().take(i) =~= s.take(i));
        lemma_peer_attrs_len_prefix(s.drop_last(), i);
    } else {
        assert(s.take(i) =~= s);
    }
}

/// Computes `nla_len(value_len)`.
pub fn nla_size(value_len: usize) -> (r: usize)
    requires
        value_len + 7 <= usize::MAX,
    ensures
        r == nla_len(value_len as nat),
        r >= value_len + 4,
{
    (value_len + 7) / 4 * 4
}

/// Encoded size of one allowed-IP record.
pub fn allowed_attr_size(a: &AllowedIpAttr) -> (r: usize)
    ensures
        r == allowed_attr_len(*a),
{
    match a {
        AllowedIpAttr::Family(_) => nla_size(2),
        AllowedIpAttr::IpAddr(IpAddress::V4(_)) => nla_size(4),
        AllowedIpAttr::IpAddr(IpAddress::V6(_)) => nla_size(16),
        AllowedIpAttr::Cidr(_) => nla_size(1),
    }
}

/// Encoded size of the records of one allowed-IP entry.
pub fn allowed_attrs_size(s: &Vec<AllowedIpAttr>) -> (r: usize)
    requires
        allowed_attrs_len(s@) <= usize::MAX,
    ensures
        r == allowed_attrs_len(s@),
{
    let mut total: usize = 0;
    let mut i: usize = 0;
    while i < s.len()
        invariant
            0 <= i <= s@.len(),
            total == allowed_attrs_len(s@.take(i as int)),
            allowed_attrs_len(s@) <= usize::MAX,
        decreases s@.len() - i,
    {
        proof {
            assert(s@.take(i + 1).drop_last() =~= s@.take(i as int));
            lemma_allowed_attrs_len_prefix(s@, i + 1);
        }
        total = total + allowed_attr_size(&s[i]);
        i = i + 1;
    }
    assert(s@.take(i as int) =~= s@);
    total
}

/// Encoded size of a list of allowed-IP entries.
pub fn allowed_list_size(s: &Vec<Vec<AllowedIpAttr>>) -> (r: usize)
    requires
        allowed_list_len(s@) <= usize::MAX,
    ensures
        r == allowed_list_len(s@),
{
    let mut total: usize = 0;
    let mut i: usize = 0;
    while i < s.len()
        invariant
            0 <= i <= s@.len(),
            total == allowed_list_len(s@.take(i as int)),
            allowed_list_len(s@) <= usize::MAX,
        decreases s@.len() - i,
    {
        proof {
            assert(s@.take(i + 1).drop_last() =~= s@.take(i as int));
            lemma_allowed_list_len_prefix(s@, i + 1);
        }
        let n = allowed_attrs_size(&s[i]);
        total = total + 4 + n;
        i = i + 1;
    }
    assert(s@.take(i as int) =~= s@);
    total
}

/// Encoded size of one peer record.
pub fn peer_attr_size(a: &PeerAttr) -> (r: usize)
    requires
        peer_attr_len(*a) <= usize::MAX,
    ensures
        r == peer_attr_len(*a),
{
    match a {
        PeerAttr::PublicKey(_) => nla_size(32),
        PeerAttr::PresharedKey(_) => nla_size(32),
        PeerAttr::Endpoint(SocketAddress::V4 { .. }) => nla_size(16),
        PeerAttr::Endpoint(SocketAddress::V6 { .. }) => nla_size(28),
        PeerAttr::PersistentKeepalive(_) => nla_size(2),
        PeerAttr::LastHandshake(_) => nla_size(16),
        PeerAttr::RxBytes(_) => nla_size(8),
        PeerAttr::TxBytes(_) => nla_size(8),
        PeerAttr::AllowedIps(v) => {
            let n = allowed_list_size(v);
            nla_size(n)
        },
        PeerAttr::ProtocolVersion(_) => nla_size(4),
        PeerAttr::Flags(_) => nla_size(4),
    }
}

/// Encoded size of the records of one peer.
pub fn peer_attrs_size(s: &Vec<PeerAttr>) -> (r: usize)
    requires
        peer_attrs_len(s@) <= usize::MAX,
    ensures
        r == peer_attrs_len(s@),
{
    let mut total: usize = 0;
    let mut i: usize = 0;
    while i < s.len()
        invariant
            0 <= i <= s@.len(),
            total == peer_attrs_len(s@.take(i as int)),
            peer_attrs_len(s@) <= usize::MAX,
        decreases s@.len() - i,
    {
        proof {
            assert(s@.take(i + 1).drop_last() =~= s@.take(i as int));
            lemma_peer_attrs_len_prefix(s@, i + 1);
        }
        total = total + peer_attr_size(&s[i]);
        i = i + 1;
    }
    assert(s@.take(i as int) =~= s@);
    total
}


pub proof fn lemma_peer_list_len_prefix(s: Seq<Vec<PeerAttr>>, i: int)
    requires
        0 <= i <= s.len(),
    ensures
        peer_list_len(s.take(i)) <= peer_list_len(s),
    decreases s.len(),
{
    if i < s.len() {
        assert(s.drop_last().take(i) =~= s.take(i));
        lemma_peer_list_len_prefix(s.drop_last(), i);
    } else {
        assert(s.take(i) =~= s);
    }
}

pub proof fn lemma_device_attrs_len_prefix(s: Seq<DeviceAttr>, i: int)
    requires
        0 <= i <= s.len(),
    ensures
        device_attrs_len(s.take(i)) <= device_attrs_len(s),
    decreases s.len(),
{
    if i < s.len() {
        assert(s.drop_last().take(i) =~= s.take(i));
        lemma_device_attrs_len_prefix(s.drop_last(), i);
    } else {
        assert(s.take(i) =~= s);
    }
}

/// Encoded size of a list of peers.
pub fn peer_list_size(s: &Vec<Vec<PeerAttr>>) -> (r: usize)
    requires
        peer_list_len(s@) <= usize::MAX,
    ensures
        r == peer_list_len(s@),
{
    let mut total: usize = 0;
    let mut i: usize = 0;
    while i < s.len()
        invariant
            0 <= i <= s@.len(),
            total == peer_list_len(s@.take(i as int)),
            peer_list_len(s@) <= usize::MAX,
        decreases s@.len() - i,
    {
        proof {
            assert(s@.take(i + 1).drop_last() =~= s@.take(i as int));
            lemma_peer_list_len_prefix(s@, i + 1);
        }
        let n = peer_attrs_size(&s[i]);
        total = total + 4 + n;
        i = i + 1;
    }
    assert(s@.take(i as int) =~= s@);
    total
}

/// Encoded size of one device record.
pub fn device_attr_size(a: &DeviceAttr) -> (r: usize)
    requires
        device_attr_len(*a) <= usize::MAX,
    ensures
        r == device_attr_len(*a),
{
    match a {
        DeviceAttr::IfIndex(_) => nla_size(4),
        DeviceAttr::IfName(s) => nla_size(s.as_str().unicode_len() + 1),
        DeviceAttr::PrivateKey(_) => nla_size(32),
        DeviceAttr::PublicKey(_) => nla_size(32),
        DeviceAttr::ListenPort(_) => nla_size(2),
        DeviceAttr::Fwmark(_) => nla_size(4),
        DeviceAttr::Flags(_) => nla_size(4),
        DeviceAttr::Peers(v) => {
            let n = peer_list_size(v);
            nla_size(n)
        },
    }
}

/// Encoded size of the records of one message.
pub fn message_size(s: &Vec<DeviceAttr>) -> (r: usize)
    requires
        device_attrs_len(s@) <= usize::MAX,
    ensures
        r == device_attrs_len(s@),
{
    let mut total: usize = 0;
    let mut i: usize = 0;
    while i < s.len()
        invariant
            0 <= i <= s@.len(),
            total == device_attrs_len(s@.take(i as int)),
            device_attrs_len(s@) <= usize::MAX,
        decreases s@.len() - i,
    {
        proof {
            assert(s@.take(i + 1).drop_last() =~= s@.take(i as int));
            lemma_device_attrs_len_prefix(s@, i + 1);
        }
        total = total + device_attr_size(&s[i]);
        i = i + 1;
    }
    assert(s@.take(i as int) =~= s@);
    total
}

} // verus!
