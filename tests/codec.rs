use wireguard_control::attrs::{AllowedIpAttr, DeviceAttr, PeerAttr, AF_INET, AF_INET6};
use wireguard_control::model::{
    AllowedIp, Device, IpAddress, Key, PeerConfigBuilder, PeerInfo, SocketAddress, Timestamp,
    WgError,
};

fn builder() -> PeerConfigBuilder {
    PeerConfigBuilder {
        public_key: Key([3; 32]),
        preshared_key: Some(Key([4; 32])),
        endpoint: Some(SocketAddress::V6 {
            ip: [0xfe, 0x80, 0, 0, 0, 0, 0, 0, 0, 0, 0, 0, 0, 0, 0, 1],
            port: 51820,
            flowinfo: 0,
            scope_id: 0,
        }),
        persistent_keepalive_interval: Some(25),
        allowed_ips: vec![
            AllowedIp { address: IpAddress::V4([10, 0, 0, 0]), cidr: 8 },
            AllowedIp { address: IpAddress::V6([0xfd; 16]), cidr: 64 },
        ],
        remove_me: false,
        replace_allowed_ips: false,
    }
}

fn same_ip(a: &AllowedIp, b: &AllowedIp) -> bool {
    let addr = match (a.address, b.address) {
        (IpAddress::V4(x), IpAddress::V4(y)) => x == y,
        (IpAddress::V6(x), IpAddress::V6(y)) => x == y,
        _ => false,
    };
    addr && a.cidr == b.cidr
}

#[test]
fn peer_round_trip_with_every_field() {
    let b = builder();
    let p = PeerInfo::try_from(&b.to_attrs()).unwrap();
    assert_eq!(p.config.public_key.0, [3; 32]);
    assert_eq!(p.config.preshared_key.unwrap().0, [4; 32]);
    assert!(matches!(p.config.endpoint, Some(SocketAddress::V6 { port: 51820, .. })));
    assert_eq!(p.config.persistent_keepalive_interval, Some(25));
    assert_eq!(p.config.allowed_ips.len(), 2);
    assert!(same_ip(&p.config.allowed_ips[0], &b.allowed_ips[0]));
    assert!(same_ip(&p.config.allowed_ips[1], &b.allowed_ips[1]));
    assert!(p.stats.last_handshake_time.is_none());
    assert_eq!(p.stats.rx_bytes, 0);
    assert_eq!(p.stats.tx_bytes, 0);
}

#[test]
fn peer_round_trip_with_no_optional_field() {
    let mut b = builder();
    b.preshared_key = None;
    b.endpoint = None;
    b.persistent_keepalive_interval = None;
    b.allowed_ips = vec![];
    let attrs = b.to_attrs();
    assert_eq!(attrs.len(), 2);
    let p = PeerInfo::try_from(&attrs).unwrap();
    assert!(p.config.preshared_key.is_none());
    assert!(p.config.endpoint.is_none());
    assert!(p.config.persistent_keepalive_interval.is_none());
    assert!(p.config.allowed_ips.is_empty());
}

#[test]
fn no_flags_record_without_flags() {
    let attrs = builder().to_attrs();
    assert!(attrs.iter().all(|a| !matches!(a, PeerAttr::Flags(_))));
    assert_eq!(attrs.len(), 5);
}

#[test]
fn flags_record_combines_both_flags() {
    let mut b = builder();
    b.remove_me = true;
    assert!(matches!(b.to_attrs().last(), Some(PeerAttr::Flags(1))));
    b.replace_allowed_ips = true;
    assert!(matches!(b.to_attrs().last(), Some(PeerAttr::Flags(3))));
    b.remove_me = false;
    assert!(matches!(b.to_attrs().last(), Some(PeerAttr::Flags(2))));
}

#[test]
fn allowed_ip_records_carry_family() {
    let v4 = AllowedIp { address: IpAddress::V4([192, 168, 0, 0]), cidr: 16 }.to_attrs();
    assert!(matches!(v4[0], AllowedIpAttr::Family(AF_INET)));
    assert!(matches!(v4[2], AllowedIpAttr::Cidr(16)));
    let v6 = AllowedIp { address: IpAddress::V6([0; 16]), cidr: 0 }.to_attrs();
    assert!(matches!(v6[0], AllowedIpAttr::Family(AF_INET6)));
}

#[test]
fn peer_without_public_key_fails() {
    let attrs = vec![
        PeerAttr::PersistentKeepalive(25),
        PeerAttr::RxBytes(10),
        PeerAttr::AllowedIps(vec![]),
    ];
    assert!(matches!(PeerInfo::try_from(&attrs), Err(WgError::RequiredFieldMissing)));
}

#[test]
fn peer_with_broken_allowed_ip_fails() {
    let attrs = vec![
        PeerAttr::PublicKey([1; 32]),
        PeerAttr::AllowedIps(vec![vec![
            AllowedIpAttr::Family(AF_INET),
            AllowedIpAttr::IpAddr(IpAddress::V4([10, 0, 0, 1])),
        ]]),
    ];
    assert!(matches!(PeerInfo::try_from(&attrs), Err(WgError::RequiredFieldMissing)));
}

#[test]
fn allowed_ip_needs_address_and_prefix() {
    let no_addr = vec![AllowedIpAttr::Family(AF_INET), AllowedIpAttr::Cidr(8)];
    assert!(matches!(AllowedIp::try_from(&no_addr), Err(WgError::RequiredFieldMissing)));
    let ok = vec![AllowedIpAttr::Cidr(8), AllowedIpAttr::IpAddr(IpAddress::V4([10, 0, 0, 0]))];
    let a = AllowedIp::try_from(&ok).unwrap();
    assert_eq!(a.cidr, 8);
}

#[test]
fn peer_stats_are_read() {
    let attrs = vec![
        PeerAttr::RxBytes(100),
        PeerAttr::PublicKey([1; 32]),
        PeerAttr::TxBytes(200),
        PeerAttr::RxBytes(5),
        PeerAttr::LastHandshake(Timestamp { secs: 17, nanos: 3 }),
    ];
    let p = PeerInfo::try_from(&attrs).unwrap();
    assert_eq!(p.stats.rx_bytes, 100);
    assert_eq!(p.stats.tx_bytes, 200);
    assert_eq!(p.stats.last_handshake_time.unwrap().secs, 17);
}

#[test]
fn device_decodes_name_and_peers() {
    let attrs = vec![
        DeviceAttr::IfIndex(4),
        DeviceAttr::IfName("wg0".to_string()),
        DeviceAttr::ListenPort(51820),
        DeviceAttr::Fwmark(7),
        DeviceAttr::Peers(vec![vec![PeerAttr::PublicKey([1; 32])], vec![PeerAttr::PublicKey([2; 32])]]),
    ];
    let d = Device::try_from(&attrs).unwrap();
    assert_eq!(d.name.as_str(), "wg0");
    assert_eq!(d.listen_port, Some(51820));
    assert_eq!(d.fwmark, Some(7));
    assert!(d.private_key.is_none());
    assert_eq!(d.peers.len(), 2);
    assert_eq!(d.peers[1].config.public_key.0, [2; 32]);
}

#[test]
fn device_without_name_fails() {
    let attrs = vec![DeviceAttr::ListenPort(51820)];
    assert!(matches!(Device::try_from(&attrs), Err(WgError::RequiredFieldMissing)));
}

#[test]
fn device_with_bad_name_fails() {
    let attrs = vec![DeviceAttr::IfName("wg/0".to_string())];
    assert!(matches!(Device::try_from(&attrs), Err(WgError::InvalidName)));
}

#[test]
fn device_with_bad_peer_fails() {
    let attrs = vec![
        DeviceAttr::IfName("wg0".to_string()),
        DeviceAttr::Peers(vec![vec![PeerAttr::PublicKey([1; 32])], vec![PeerAttr::TxBytes(1)]]),
    ];
    assert!(matches!(Device::try_from(&attrs), Err(WgError::RequiredFieldMissing)));
}
