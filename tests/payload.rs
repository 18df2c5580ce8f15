use netlink_packet_core::NetlinkSerializable;
use netlink_packet_generic::GenlMessage;
use netlink_packet_wireguard::nlas::{WgAllowedIp, WgAllowedIpAttrs, WgDeviceAttrs, WgPeer, WgPeerAttrs};
use netlink_packet_wireguard::{Wireguard, WireguardCmd};
use wireguard_control::attrs::{
    message_size, peer_attrs_size, AllowedIpAttr, DeviceAttr, PeerAttr, AF_INET,
    WGDEVICE_F_REPLACE_PEERS,
};
use wireguard_control::model::{InterfaceName, IpAddress, SocketAddress};
use wireguard_control::payload::{ApplyPayload, MIN_GENL_PAYLOAD_LENGTH};

fn sample_peer(key: u8) -> Vec<PeerAttr> {
    vec![
        PeerAttr::PublicKey([key; 32]),
        PeerAttr::PersistentKeepalive(25),
        PeerAttr::Endpoint(SocketAddress::V4 { ip: [1, 1, 1, 1], port: 51820 }),
        PeerAttr::AllowedIps(vec![vec![
            AllowedIpAttr::Family(AF_INET),
            AllowedIpAttr::IpAddr(IpAddress::V4([10, 1, 1, 1])),
            AllowedIpAttr::Cidr(24),
        ]]),
    ]
}

fn device_fields(payload: &mut ApplyPayload) {
    payload.push(DeviceAttr::PrivateKey([1u8; 32]));
    payload.push(DeviceAttr::Fwmark(111));
    payload.push(DeviceAttr::ListenPort(12345));
    payload.push(DeviceAttr::Flags(WGDEVICE_F_REPLACE_PEERS));
}

#[test]
fn test_simple_payload() {
    let mut payload = ApplyPayload::new(&InterfaceName::from_str("wg0").unwrap());
    device_fields(&mut payload);
    payload.push_peer(sample_peer(2));
    assert_eq!(payload.finish().len(), 1);
}

#[test]
fn test_massive_payload() {
    let mut payload = ApplyPayload::new(&InterfaceName::from_str("wg0").unwrap());
    device_fields(&mut payload);
    for _ in 0..10_000 {
        payload.push_peer(sample_peer(2));
    }
    let messages = payload.finish();
    assert!(messages.len() > 1);
    for message in messages {
        // the generic-netlink header adds 4 bytes to the records
        assert!(message_size(&message) + 4 < netlink_request::max_netlink_buffer_length());
    }
}

#[test]
fn sample_peer_has_exact_size() {
    // public key 36, keepalive 8, IPv4 endpoint 20, allowed-IP list 4 + (4 + 8 + 8 + 8)
    assert_eq!(peer_attrs_size(&sample_peer(2)), 96);
}

#[test]
fn messages_stay_below_payload_limit_and_keep_peer_order() {
    let mut payload = ApplyPayload::new(&InterfaceName::from_str("wg0").unwrap());
    device_fields(&mut payload);
    for i in 0..3_000u32 {
        payload.push_peer(sample_peer((i % 251) as u8));
    }
    let messages = payload.finish();
    let limit = netlink_request::max_genl_payload_length();
    assert!(limit >= MIN_GENL_PAYLOAD_LENGTH);
    let mut keys = Vec::new();
    let mut device_records = 0;
    for message in &messages {
        assert!(message_size(message) < limit);
        match &message[0] {
            DeviceAttr::IfName(n) => assert_eq!(n, "wg0"),
            other => panic!("first record is {:?}", other),
        }
        for attr in &message[1..] {
            match attr {
                DeviceAttr::Peers(peers) => {
                    assert!(!peers.is_empty());
                    for p in peers {
                        match &p[0] {
                            PeerAttr::PublicKey(k) => keys.push(k[0]),
                            other => panic!("first peer record is {:?}", other),
                        }
                    }
                }
                _ => device_records += 1,
            }
        }
    }
    assert_eq!(device_records, 4);
    let expected: Vec<u8> = (0..3_000u32).map(|i| (i % 251) as u8).collect();
    assert_eq!(keys, expected);
}

#[test]
fn nothing_pushed_gives_no_message() {
    let payload = ApplyPayload::new(&InterfaceName::from_str("wg0").unwrap());
    assert_eq!(payload.finish().len(), 0);
}

#[test]
fn oversized_peer_is_not_split() {
    let mut payload = ApplyPayload::new(&InterfaceName::from_str("wg0").unwrap());
    let limit = netlink_request::max_genl_payload_length();
    let ranges = limit / 28 + 10;
    let mut list = Vec::new();
    for _ in 0..ranges {
        list.push(vec![
            AllowedIpAttr::Family(AF_INET),
            AllowedIpAttr::IpAddr(IpAddress::V4([10, 0, 0, 1])),
            AllowedIpAttr::Cidr(32),
        ]);
    }
    payload.push_peer(sample_peer(7));
    payload.push_peer(vec![PeerAttr::PublicKey([9; 32]), PeerAttr::AllowedIps(list)]);
    payload.push_peer(sample_peer(8));
    let messages = payload.finish();
    assert_eq!(messages.len(), 3);
    assert!(message_size(&messages[1]) >= limit);
    assert_eq!(messages[1].len(), 2);
}

#[test]
fn record_sizes_match_the_netlink_encoding() {
    let theirs = vec![
        WgDeviceAttrs::IfName("wg0".to_string()),
        WgDeviceAttrs::PrivateKey([1u8; 32]),
        WgDeviceAttrs::ListenPort(12345),
        WgDeviceAttrs::Peers(vec![WgPeer(vec![
            WgPeerAttrs::PublicKey([2u8; 32]),
            WgPeerAttrs::PersistentKeepalive(25),
            WgPeerAttrs::Endpoint("1.1.1.1:51820".parse().unwrap()),
            WgPeerAttrs::AllowedIps(vec![WgAllowedIp(vec![
                WgAllowedIpAttrs::Family(AF_INET),
                WgAllowedIpAttrs::IpAddr([10, 1, 1, 1].into()),
                WgAllowedIpAttrs::Cidr(24),
            ])]),
        ])]),
    ];
    let message = GenlMessage::from_payload(Wireguard { cmd: WireguardCmd::SetDevice, nlas: theirs });
    let ours = vec![
        DeviceAttr::IfName("wg0".to_string()),
        DeviceAttr::PrivateKey([1u8; 32]),
        DeviceAttr::ListenPort(12345),
        DeviceAttr::Peers(vec![sample_peer(2)]),
    ];
    // the generic-netlink header adds 4 bytes to the records
    assert_eq!(message_size(&ours) + 4, NetlinkSerializable::buffer_len(&message));
}
