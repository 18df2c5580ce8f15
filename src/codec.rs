//! Conversion between domain values and attribute records.
//!
//! Decoding keeps the first record of each kind, insists on the records that identify the
//! entity and lets every other field default when it is absent.
use vstd::prelude::*;
use vstd::utf8::is_ascii_chars;
use crate::attrs::{
    AllowedIpAttr, DeviceAttr, PeerAttr, AF_INET, AF_INET6, WGPEER_F_REMOVE_ME,
    WGPEER_F_REPLACE_ALLOWEDIPS,
};
use crate::model::{
    valid_name, AllowedIp, Backend, Device, InterfaceName, IpAddress, Key, PeerConfig,
    PeerConfigBuilder, PeerInfo, PeerStats, SocketAddress, Timestamp, WgError,
};

verus! {

// ---------------------------------------------------------------- encoding

/// The records of one allowed-IP range: family, address, prefix length.
pub open spec fn allowed_ip_attrs(a: AllowedIp) -> Seq<AllowedIpAttr> {
    seq![
        AllowedIpAttr::Family(
            match a.address {
                IpAddress::V4(_) => AF_INET,
                IpAddress::V6(_) => AF_INET6,
            },
        ),
        AllowedIpAttr::IpAddr(a.address),
        AllowedIpAttr::Cidr(a.cidr),
    ]
}

/// `v` holds, in order, the records of each range of `ips`.
pub open spec fn allowed_ips_encoded(ips: Seq<AllowedIp>, v: Seq<Vec<AllowedIpAttr>>) -> bool {
    v.len() == ips.len() && forall|i: int| 0 <= i < v.len() ==> #[trigger] v[i]@ == allowed_ip_attrs(ips[i])
}

/// The flags bitmask that a builder asks for.
pub open spec fn peer_flags(b: PeerConfigBuilder) -> u32 {
    ((if b.remove_me { WGPEER_F_REMOVE_ME } else { 0u32 }) + (if b.replace_allowed_ips {
        WGPEER_F_REPLACE_ALLOWEDIPS
    } else {
        0u32
    })) as u32
}

/// The records of a builder that precede its allowed-IP list.
pub open spec fn peer_head(b: PeerConfigBuilder) -> Seq<PeerAttr> {
    seq![PeerAttr::PublicKey(b.public_key.0)]
        + match b.endpoint { Some(e) => seq![PeerAttr::Endpoint(e)], None => seq![] }
        + match b.preshared_key { Some(k) => seq![PeerAttr::PresharedKey(k.0)], None => seq![] }
        + match b.persistent_keepalive_interval {
            Some(i) => seq![PeerAttr::PersistentKeepalive(i)],
            None => seq![],
        }
}

/// `s` is the encoding of `b`: public key, then endpoint, preshared key and keepalive where
/// set, then the allowed-IP list, then a flags record only if some flag is set.
pub open spec fn peer_encoded(b: PeerConfigBuilder, s: Seq<PeerAttr>) -> bool {
    let h = peer_head(b);
    &&& s.len() == h.len() + 1 + (if peer_flags(b) != 0 { 1int } else { 0 })
    &&& s.take(h.len() as int) == h
    &&& match s[h.len() as int] {
        PeerAttr::AllowedIps(v) => allowed_ips_encoded(b.allowed_ips@, v@),
        _ => false,
    }
    &&& peer_flags(b) != 0 ==> s.last() == PeerAttr::Flags(peer_flags(b))
}

impl AllowedIp {
    /// Encodes this range as its three records.
    pub fn to_attrs(&self) -> (r: Vec<AllowedIpAttr>)
        ensures
            r@ == allowed_ip_attrs(*self),
    {
        let family = match self.address {
            IpAddress::V4(_) => AF_INET,
            IpAddress::V6(_) => AF_INET6,
        };
        let r = vec![
            AllowedIpAttr::Family(family),
            AllowedIpAttr::IpAddr(self.address),
            AllowedIpAttr::Cidr(self.cidr),
        ];
        assert(r@ =~= allowed_ip_attrs(*self));
        r
    }
}

impl PeerConfigBuilder {
    /// Encodes this peer update as its records.
    pub fn to_attrs(&self) -> (r: Vec<PeerAttr>)
        ensures
            peer_encoded(*self, r@),
    {
        let mut attrs: Vec<PeerAttr> = vec![PeerAttr::PublicKey(self.public_key.0)];
        let mut flags: u32 = 0;
        if let Some(endpoint) = self.endpoint {
            attrs.push(PeerAttr::Endpoint(endpoint));
        }
        if let Some(key) = self.preshared_key {
            attrs.push(PeerAttr::PresharedKey(key.0));
        }
        if let Some(i) = self.persistent_keepalive_interval {
            attrs.push(PeerAttr::PersistentKeepalive(i));
        }
        let ghost head = attrs@;
        assert(head =~= peer_head(*self));
        let mut allowed_ips: Vec<Vec<AllowedIpAttr>> = Vec::new();
        let mut i: usize = 0;
        while i < self.allowed_ips.len()
            invariant
                0 <= i <= self.allowed_ips@.len(),
                allowed_ips_encoded(self.allowed_ips@.take(i as int), allowed_ips@),
            decreases self.allowed_ips@.len() - i,
        {
            allowed_ips.push(self.allowed_ips[i].to_attrs());
            i = i + 1;
        }
        assert(self.allowed_ips@.take(i as int) =~= self.allowed_ips@);
        attrs.push(PeerAttr::AllowedIps(allowed_ips));
        if self.remove_me {
            flags = flags + WGPEER_F_REMOVE_ME;
        }
        if self.replace_allowed_ips {
            flags = flags + WGPEER_F_REPLACE_ALLOWEDIPS;
        }
        assert(flags == peer_flags(*self));
        assert(attrs@.take(head.len() as int) =~= head);
        if flags != 0 {
            attrs.push(PeerAttr::Flags(flags));
            assert(attrs@.take(head.len() as int) =~= head);
        }
        attrs
    }
}

// ---------------------------------------------------------------- decoding

/// The first value of each kind of allowed-IP record.
pub struct AllowedIpFields {
    pub address: Option<IpAddress>,
    pub cidr: Option<u8>,
}

pub open spec fn allowed_ip_fields(s: Seq<AllowedIpAttr>) -> AllowedIpFields
    decreases s.len(),
{
    if s.len() == 0 {
        AllowedIpFields { address: None, cidr: None }
    } else {
        let f = allowed_ip_fields(s.drop_last());
        match s.last() {
            AllowedIpAttr::IpAddr(a) if f.address is None => AllowedIpFields { address: Some(a), ..f },
            AllowedIpAttr::Cidr(c) if f.cidr is None => AllowedIpFields { cidr: Some(c), ..f },
            _ => f,
        }
    }
}

/// The range that the records `s` describe, if they hold an address and a prefix length.
pub open spec fn allowed_ip_of(s: Seq<AllowedIpAttr>) -> Option<AllowedIp> {
    let f = allowed_ip_fields(s);
    if f.address is Some && f.cidr is Some {
        Some(AllowedIp { address: f.address.unwrap(), cidr: f.cidr.unwrap() })
    } else {
        None
    }
}

/// The first value of each kind of peer record.
pub struct PeerFields {
    pub public_key: Option<Key>,
    pub preshared_key: Option<Key>,
    pub endpoint: Option<SocketAddress>,
    pub keepalive: Option<u16>,
    pub allowed_ips: Option<Vec<Vec<AllowedIpAttr>>>,
    pub last_handshake: Option<Timestamp>,
    pub rx_bytes: Option<u64>,
    pub tx_bytes: Option<u64>,
}

pub open spec fn peer_fields(s: Seq<PeerAttr>) -> PeerFields
    decreases s.len(),
{
    if s.len() == 0 {
        PeerFields {
            public_key: None,
            preshared_key: None,
            endpoint: None,
            keepalive: None,
            allowed_ips: None,
            last_handshake: None,
            rx_bytes: None,
            tx_bytes: None,
        }
    } else {
        let f = peer_fields(s.drop_last());
        match s.last() {
            PeerAttr::PublicKey(k) if f.public_key is None => PeerFields { public_key: Some(Key(k)), ..f },
            PeerAttr::PresharedKey(k) if f.preshared_key is None => PeerFields { preshared_key: Some(Key(k)), ..f },
            PeerAttr::Endpoint(e) if f.endpoint is None => PeerFields { endpoint: Some(e), ..f },
            PeerAttr::PersistentKeepalive(i) if f.keepalive is None => PeerFields { keepalive: Some(i), ..f },
            PeerAttr::AllowedIps(v) if f.allowed_ips is None => PeerFields { allowed_ips: Some(v), ..f },
            PeerAttr::LastHandshake(t) if f.last_handshake is None => PeerFields { last_handshake: Some(t), ..f },
            PeerAttr::RxBytes(n) if f.rx_bytes is None => PeerFields { rx_bytes: Some(n), ..f },
            PeerAttr::TxBytes(n) if f.tx_bytes is None => PeerFields { tx_bytes: Some(n), ..f },
            _ => f,
        }
    }
}

/// The allowed-IP entries of a peer's records: those of its first list, or none.
pub open spec fn peer_allowed_entries(s: Seq<PeerAttr>) -> Seq<Vec<AllowedIpAttr>> {
    match peer_fields(s).allowed_ips {
        Some(v) => v@,
        None => seq![],
    }
}

/// Whether the records `s` decode to a peer: a public key is present and every
/// allowed-IP entry decodes.
pub open spec fn peer_decodes(s: Seq<PeerAttr>) -> bool {
    &&& peer_fields(s).public_key is Some
    &&& forall|j: int| 0 <= j < peer_allowed_entries(s).len()
        ==> (#[trigger] allowed_ip_of(peer_allowed_entries(s)[j]@)) is Some
}

/// `p` is the peer that the records `s` describe.
pub open spec fn peer_decoded(s: Seq<PeerAttr>, p: PeerInfo) -> bool {
    let f = peer_fields(s);
    let e = peer_allowed_entries(s);
    &&& Some(p.config.public_key) == f.public_key
    &&& p.config.preshared_key == f.preshared_key
    &&& p.config.endpoint == f.endpoint
    &&& p.config.persistent_keepalive_interval == f.keepalive
    &&& p.config.allowed_ips@.len() == e.len()
    &&& forall|j: int| 0 <= j < e.len() ==> Some(#[trigger] p.config.allowed_ips@[j]) == allowed_ip_of(e[j]@)
    &&& p.stats.last_handshake_time == f.last_handshake
    &&& p.stats.rx_bytes == (match f.rx_bytes { Some(n) => n, None => 0 })
    &&& p.stats.tx_bytes == (match f.tx_bytes { Some(n) => n, None => 0 })
}

impl AllowedIp {
    /// Decodes one allowed-IP entry; the address and the prefix length are required.
    pub fn try_from(attrs: &Vec<AllowedIpAttr>) -> (r: Result<AllowedIp, WgError>)
        ensures
            match r {
                Ok(a) => allowed_ip_of(attrs@) == Some(a),
                Err(e) => allowed_ip_of(attrs@) is None && e == WgError::RequiredFieldMissing,
            },
    {
        let mut address: Option<IpAddress> = None;
        let mut cidr: Option<u8> = None;
        let mut i: usize = 0;
        while i < attrs.len()
            invariant
                0 <= i <= attrs@.len(),
                address == allowed_ip_fields(attrs@.take(i as int)).address,
                cidr == allowed_ip_fields(attrs@.take(i as int)).cidr,
            decreases attrs@.len() - i,
        {
            assert(attrs@.take(i + 1).drop_last() =~= attrs@.take(i as int));
            match &attrs[i] {
                AllowedIpAttr::IpAddr(a) => {
                    if address.is_none() {
                        address = Some(*a);
                    }
                },
                AllowedIpAttr::Cidr(c) => {
                    if cidr.is_none() {
                        cidr = Some(*c);
                    }
                },
                _ => {},
            }
            i = i + 1;
        }
        assert(attrs@.take(i as int) =~= attrs@);
        match (address, cidr) {
            (Some(address), Some(cidr)) => Ok(AllowedIp { address, cidr }),
            _ => Err(WgError::RequiredFieldMissing),
        }
    }
}


impl PeerInfo {
    /// Decodes one peer; the public key is required and any entry of its allowed-IP list
    /// that fails to decode fails the whole peer.
    pub fn try_from(attrs: &Vec<PeerAttr>) -> (r: Result<PeerInfo, WgError>)
        ensures
            r is Ok <==> peer_decodes(attrs@),
            match r {
                Ok(p) => peer_decoded(attrs@, p),
                Err(e) => e == WgError::RequiredFieldMissing,
            },
    {
        let mut public_key: Option<Key> = None;
        let mut preshared_key: Option<Key> = None;
        let mut endpoint: Option<SocketAddress> = None;
        let mut keepalive: Option<u16> = None;
        let mut allowed: Option<&Vec<Vec<AllowedIpAttr>>> = None;
        let mut last_handshake: Option<Timestamp> = None;
        let mut rx_bytes: Option<u64> = None;
        let mut tx_bytes: Option<u64> = None;
        let mut i: usize = 0;
        while i < attrs.len()
            invariant
                0 <= i <= attrs@.len(),
                public_key == peer_fields(attrs@.take(i as int)).public_key,
                preshared_key == peer_fields(attrs@.take(i as int)).preshared_key,
                endpoint == peer_fields(attrs@.take(i as int)).endpoint,
                keepalive == peer_fields(attrs@.take(i as int)).keepalive,
                allowed is Some == peer_fields(attrs@.take(i as int)).allowed_ips is Some,
                allowed is Some ==> *allowed.unwrap() == peer_fields(attrs@.take(i as int)).allowed_ips.unwrap(),
                last_handshake == peer_fields(attrs@.take(i as int)).last_handshake,
                rx_bytes == peer_fields(attrs@.take(i as int)).rx_bytes,
                tx_bytes == peer_fields(attrs@.take(i as int)).tx_bytes,
            decreases attrs@.len() - i,
        {
            assert(attrs@.take(i + 1).drop_last() =~= attrs@.take(i as int));
            match &attrs[i] {
                PeerAttr::PublicKey(k) => {
                    if public_key.is_none() {
                        public_key = Some(Key(*k));
                    }
                },
                PeerAttr::PresharedKey(k) => {
                    if preshared_key.is_none() {
                        preshared_key = Some(Key(*k));
                    }
                },
                PeerAttr::Endpoint(e) => {
                    if endpoint.is_none() {
                        endpoint = Some(*e);
                    }
                },
                PeerAttr::PersistentKeepalive(n) => {
                    if keepalive.is_none() {
                        keepalive = Some(*n);
                    }
                },
                PeerAttr::AllowedIps(v) => {
                    if allowed.is_none() {
                        allowed = Some(v);
                    }
                },
                PeerAttr::LastHandshake(t) => {
                    if last_handshake.is_none() {
                        last_handshake = Some(*t);
                    }
                },
                PeerAttr::RxBytes(n) => {
                    if rx_bytes.is_none() {
                        rx_bytes = Some(*n);
                    }
                },
                PeerAttr::TxBytes(n) => {
                    if tx_bytes.is_none() {
                        tx_bytes = Some(*n);
                    }
                },
                _ => {},
            }
            i = i + 1;
        }
        assert(attrs@.take(i as int) =~= attrs@);
        let public_key = match public_key {
            Some(k) => k,
            None => {
                return Err(WgError::RequiredFieldMissing);
            },
        };
        let ghost entries = peer_allowed_entries(attrs@);
        let mut allowed_ips: Vec<AllowedIp> = Vec::new();
        if let Some(list) = allowed {
            let mut j: usize = 0;
            while j < list.len()
                invariant
                    list@ == entries,
                    entries == peer_allowed_entries(attrs@),
                    0 <= j <= list@.len(),
                    allowed_ips@.len() == j,
                    forall|k: int| 0 <= k < j ==> Some(#[trigger] allowed_ips@[k]) == allowed_ip_of(entries[k]@),
                decreases list@.len() - j,
            {
                match AllowedIp::try_from(&list[j]) {
                    Ok(a) => allowed_ips.push(a),
                    Err(e) => {
                        assert(allowed_ip_of(peer_allowed_entries(attrs@)[j as int]@) is None);
                        return Err(e);
                    },
                }
                j = j + 1;
            }
        }
        assert(entries.len() == allowed_ips@.len());
        assert forall|j: int| 0 <= j < peer_allowed_entries(attrs@).len() implies (#[trigger] allowed_ip_of(
            peer_allowed_entries(attrs@)[j]@,
        )) is Some by {
            assert(Some(allowed_ips@[j]) == allowed_ip_of(entries[j]@));
        }
        let rx_bytes = match rx_bytes { Some(n) => n, None => 0 };
        let tx_bytes = match tx_bytes { Some(n) => n, None => 0 };
        Ok(PeerInfo {
            config: PeerConfig {
                public_key,
                preshared_key,
                endpoint,
                persistent_keepalive_interval: keepalive,
                allowed_ips,
            },
            stats: PeerStats { last_handshake_time: last_handshake, rx_bytes, tx_bytes },
        })
    }
}


/// The first value of each kind of device record.
pub struct DeviceFields {
    pub name: Option<String>,
    pub public_key: Option<Key>,
    pub private_key: Option<Key>,
    pub listen_port: Option<u16>,
    pub fwmark: Option<u32>,
    pub peers: Option<Vec<Vec<PeerAttr>>>,
}

pub open spec fn device_fields(s: Seq<DeviceAttr>) -> DeviceFields
    decreases s.len(),
{
    if s.len() == 0 {
        DeviceFields {
            name: None,
            public_key: None,
            private_key: None,
            listen_port: None,
            fwmark: None,
            peers: None,
        }
    } else {
        let f = device_fields(s.drop_last());
        match s.last() {
            DeviceAttr::IfName(n) if f.name is None => DeviceFields { name: Some(n), ..f },
            DeviceAttr::PublicKey(k) if f.public_key is None => DeviceFields { public_key: Some(Key(k)), ..f },
            DeviceAttr::PrivateKey(k) if f.private_key is None => DeviceFields { private_key: Some(Key(k)), ..f },
            DeviceAttr::ListenPort(p) if f.listen_port is None => DeviceFields { listen_port: Some(p), ..f },
            DeviceAttr::Fwmark(m) if f.fwmark is None => DeviceFields { fwmark: Some(m), ..f },
            DeviceAttr::Peers(v) if f.peers is None => DeviceFields { peers: Some(v), ..f },
            _ => f,
        }
    }
}

/// The peer entries of a device's records: those of its first peer list, or none.
pub open spec fn device_peer_entries(s: Seq<DeviceAttr>) -> Seq<Vec<PeerAttr>> {
    match device_fields(s).peers {
        Some(v) => v@,
        None => seq![],
    }
}

/// Whether a name string is a valid interface name.
pub open spec fn name_ok(n: String) -> bool {
    is_ascii_chars(n@) && valid_name(n@.map_values(|c: char| c as u8))
}

/// Whether the records `s` decode to a device: a valid name is present and every peer decodes.
pub open spec fn device_decodes(s: Seq<DeviceAttr>) -> bool {
    let f = device_fields(s);
    &&& f.name is Some
    &&& name_ok(f.name.unwrap())
    &&& forall|j: int| 0 <= j < device_peer_entries(s).len()
        ==> peer_decodes(#[trigger] device_peer_entries(s)[j]@)
}

/// The error with which decoding the records `s` of a device fails.
pub open spec fn device_decode_error(s: Seq<DeviceAttr>) -> WgError {
    let f = device_fields(s);
    if f.name is Some && !name_ok(f.name.unwrap()) {
        WgError::InvalidName
    } else {
        WgError::RequiredFieldMissing
    }
}

/// `d` is the device that the records `s` describe.
pub open spec fn device_decoded(s: Seq<DeviceAttr>, d: Device) -> bool {
    let f = device_fields(s);
    let e = device_peer_entries(s);
    &&& d.name@ == f.name.unwrap()@.map_values(|c: char| c as u8)
    &&& d.public_key == f.public_key
    &&& d.private_key == f.private_key
    &&& d.listen_port == f.listen_port
    &&& d.fwmark == f.fwmark
    &&& d.peers@.len() == e.len()
    &&& forall|j: int| 0 <= j < e.len() ==> peer_decoded(e[j]@, #[trigger] d.peers@[j])
    &&& d.backend == Backend::Kernel
}

impl Device {
    /// Decodes a device; the interface name is required and must be valid, and the first
    /// peer that fails to decode fails the whole device.
    pub fn try_from(attrs: &Vec<DeviceAttr>) -> (r: Result<Device, WgError>)
        ensures
            r is Ok <==> device_decodes(attrs@),
            match r {
                Ok(d) => device_decoded(attrs@, d),
                Err(e) => e == device_decode_error(attrs@),
            },
    {
        let mut name: Option<&String> = None;
        let mut public_key: Option<Key> = None;
        let mut private_key: Option<Key> = None;
        let mut listen_port: Option<u16> = None;
        let mut fwmark: Option<u32> = None;
        let mut peers: Option<&Vec<Vec<PeerAttr>>> = None;
        let mut i: usize = 0;
        while i < attrs.len()
            invariant
                0 <= i <= attrs@.len(),
                name is Some == device_fields(attrs@.take(i as int)).name is Some,
                name is Some ==> *name.unwrap() == device_fields(attrs@.take(i as int)).name.unwrap(),
                public_key == device_fields(attrs@.take(i as int)).public_key,
                private_key == device_fields(attrs@.take(i as int)).private_key,
                listen_port == device_fields(attrs@.take(i as int)).listen_port,
                fwmark == device_fields(attrs@.take(i as int)).fwmark,
                peers is Some == device_fields(attrs@.take(i as int)).peers is Some,
                peers is Some ==> *peers.unwrap() == device_fields(attrs@.take(i as int)).peers.unwrap(),
            decreases attrs@.len() - i,
        {
            assert(attrs@.take(i + 1).drop_last() =~= attrs@.take(i as int));
            match &attrs[i] {
                DeviceAttr::IfName(n) => {
                    if name.is_none() {
                        name = Some(n);
                    }
                },
                DeviceAttr::PublicKey(k) => {
                    if public_key.is_none() {
                        public_key = Some(Key(*k));
                    }
                },
                DeviceAttr::PrivateKey(k) => {
                    if private_key.is_none() {
                        private_key = Some(Key(*k));
                    }
                },
                DeviceAttr::ListenPort(p) => {
                    if listen_port.is_none() {
                        listen_port = Some(*p);
                    }
                },
                DeviceAttr::Fwmark(m) => {
                    if fwmark.is_none() {
                        fwmark = Some(*m);
                    }
                },
                DeviceAttr::Peers(v) => {
                    if peers.is_none() {
                        peers = Some(v);
                    }
                },
                _ => {},
            }
            i = i + 1;
        }
        assert(attrs@.take(i as int) =~= attrs@);
        let name = match name {
            Some(n) => match InterfaceName::from_str(n.as_str()) {
                Ok(n) => n,
                Err(e) => {
                    return Err(e);
                },
            },
            None => {
                return Err(WgError::RequiredFieldMissing);
            },
        };
        assert(name_ok(device_fields(attrs@).name.unwrap()));
        let ghost entries = device_peer_entries(attrs@);
        let mut infos: Vec<PeerInfo> = Vec::new();
        if let Some(list) = peers {
            let mut j: usize = 0;
            while j < list.len()
                invariant
                    list@ == entries,
                    entries == device_peer_entries(attrs@),
                    device_decode_error(attrs@) == WgError::RequiredFieldMissing,
                    device_fields(attrs@).name is Some && name_ok(device_fields(attrs@).name.unwrap()),
                    0 <= j <= list@.len(),
                    infos@.len() == j,
                    forall|k: int| 0 <= k < j ==> peer_decoded(entries[k]@, #[trigger] infos@[k]),
                    forall|k: int| 0 <= k < j ==> peer_decodes(#[trigger] entries[k]@),
                decreases list@.len() - j,
            {
                match PeerInfo::try_from(&list[j]) {
                    Ok(p) => infos.push(p),
                    Err(e) => {
                        assert(!peer_decodes(device_peer_entries(attrs@)[j as int]@));
                        return Err(e);
                    },
                }
                j = j + 1;
            }
        }
        assert forall|j: int| 0 <= j < device_peer_entries(attrs@).len() implies peer_decodes(
            #[trigger] device_peer_entries(attrs@)[j]@,
        ) by {
            assert(peer_decodes(entries[j]@));
        }
        Ok(Device {
            name,
            public_key,
            private_key,
            listen_port,
            fwmark,
            peers: infos,
            backend: Backend::Kernel,
        })
    }
}


// ---------------------------------------------------------------- laws

proof fn lemma_allowed_ip_round_trip(a: AllowedIp)
    ensures
        allowed_ip_of(allowed_ip_attrs(a)) == Some(a),
{
    let s = allowed_ip_attrs(a);
    assert(s.drop_last().drop_last().drop_last() =~= Seq::<AllowedIpAttr>::empty());
    reveal_with_fuel(allowed_ip_fields, 4);
}

/// Encoding a peer update and decoding the records back gives its configuration: decoding
/// succeeds, and the peer it yields carries the update's public key, preshared key, endpoint,
/// keepalive interval and allowed-IP ranges, with no handshake time and zero counters.
pub proof fn lemma_peer_round_trip(b: PeerConfigBuilder, s: Seq<PeerAttr>)
    requires
        peer_encoded(b, s),
    ensures
        peer_decodes(s),
        forall|p: PeerInfo| #[trigger] peer_decoded(s, p) ==> {
            &&& p.config.public_key == b.public_key
            &&& p.config.preshared_key == b.preshared_key
            &&& p.config.endpoint == b.endpoint
            &&& p.config.persistent_keepalive_interval == b.persistent_keepalive_interval
            &&& p.config.allowed_ips@ == b.allowed_ips@
            &&& p.stats.last_handshake_time is None
            &&& p.stats.rx_bytes == 0
            &&& p.stats.tx_bytes == 0
        },
{
    let h = peer_head(b);
    let n = h.len() as int;
    let v = match s[n] {
        PeerAttr::AllowedIps(v) => v,
        _ => arbitrary(),
    };
    // the fields of the head, one optional record at a time
    let e0 = seq![PeerAttr::PublicKey(b.public_key.0)];
    let e1 = match b.endpoint { Some(e) => seq![PeerAttr::Endpoint(e)], None => Seq::<PeerAttr>::empty() };
    let e2 = match b.preshared_key { Some(k) => seq![PeerAttr::PresharedKey(k.0)], None => Seq::<PeerAttr>::empty() };
    let e3 = match b.persistent_keepalive_interval {
        Some(i) => seq![PeerAttr::PersistentKeepalive(i)],
        None => Seq::<PeerAttr>::empty(),
    };
    assert(e0.drop_last() =~= Seq::<PeerAttr>::empty());
    let f0 = peer_fields(e0);
    let s1 = e0 + e1;
    assert(e1.len() == 0 ==> s1 =~= e0);
    assert(e1.len() == 1 ==> s1.drop_last() =~= e0);
    let s2 = s1 + e2;
    assert(e2.len() == 0 ==> s2 =~= s1);
    assert(e2.len() == 1 ==> s2.drop_last() =~= s1);
    let s3 = s2 + e3;
    assert(e3.len() == 0 ==> s3 =~= s2);
    assert(e3.len() == 1 ==> s3.drop_last() =~= s2);
    assert(h =~= s3);
    assert(peer_fields(e0.drop_last()) == peer_fields(Seq::<PeerAttr>::empty()));
    assert(f0.public_key == Some(b.public_key) && f0.endpoint is None && f0.preshared_key is None
        && f0.keepalive is None && f0.allowed_ips is None && f0.last_handshake is None
        && f0.rx_bytes is None && f0.tx_bytes is None);
    let f1 = peer_fields(s1);
    if e1.len() == 1 {
        assert(peer_fields(s1.drop_last()) == f0);
    }
    assert(f1.public_key == Some(b.public_key) && f1.endpoint == b.endpoint && f1.preshared_key is None
        && f1.keepalive is None && f1.allowed_ips is None && f1.last_handshake is None
        && f1.rx_bytes is None && f1.tx_bytes is None);
    let f2 = peer_fields(s2);
    if e2.len() == 1 {
        assert(peer_fields(s2.drop_last()) == f1);
    }
    assert(f2.public_key == Some(b.public_key) && f2.endpoint == b.endpoint && f2.preshared_key
        == b.preshared_key && f2.keepalive is None && f2.allowed_ips is None && f2.last_handshake is None
        && f2.rx_bytes is None && f2.tx_bytes is None);
    if e3.len() == 1 {
        assert(peer_fields(s3.drop_last()) == f2);
    }
    let hf = peer_fields(h);
    assert(hf.public_key == Some(b.public_key));
    assert(hf.endpoint == b.endpoint);
    assert(hf.preshared_key == b.preshared_key);
    assert(hf.keepalive == b.persistent_keepalive_interval);
    assert(hf.allowed_ips is None && hf.last_handshake is None && hf.rx_bytes is None
        && hf.tx_bytes is None);
    // then the allowed-IP list and, perhaps, the flags
    let s4 = s.take(n + 1);
    assert(s4.drop_last() =~= h);
    assert(peer_fields(s4).allowed_ips == Some(v));
    if peer_flags(b) != 0 {
        assert(s.drop_last() =~= s4);
    } else {
        assert(s =~= s4);
    }
    let f = peer_fields(s);
    assert(f.allowed_ips == Some(v));
    assert(peer_allowed_entries(s) == v@);
    assert forall|j: int| 0 <= j < peer_allowed_entries(s).len() implies (#[trigger] allowed_ip_of(
        peer_allowed_entries(s)[j]@,
    )) == Some(b.allowed_ips@[j]) by {
        lemma_allowed_ip_round_trip(b.allowed_ips@[j]);
    }
    assert forall|p: PeerInfo| #[trigger] peer_decoded(s, p) implies p.config.allowed_ips@
        == b.allowed_ips@ by {
        assert forall|j: int| 0 <= j < b.allowed_ips@.len() implies p.config.allowed_ips@[j]
            == b.allowed_ips@[j] by {
            assert(Some(p.config.allowed_ips@[j]) == allowed_ip_of(peer_allowed_entries(s)[j]@));
        }
        assert(p.config.allowed_ips@ =~= b.allowed_ips@);
    }
}

/// A peer update with neither flag set is encoded without any flags record.
pub proof fn lemma_no_flags_record(b: PeerConfigBuilder, s: Seq<PeerAttr>)
    requires
        peer_encoded(b, s),
        !b.remove_me,
        !b.replace_allowed_ips,
    ensures
        forall|i: int| 0 <= i < s.len() ==> !(#[trigger] s[i] is Flags),
{
    let h = peer_head(b);
    assert forall|i: int| 0 <= i < s.len() implies !(#[trigger] s[i] is Flags) by {
        if i < h.len() {
            assert(s[i] == s.take(h.len() as int)[i]);
        }
    }
}

} // verus!
