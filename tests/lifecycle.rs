use wireguard_control::attrs::{DeviceAttr, PeerAttr};
use wireguard_control::lifecycle::{
    apply_messages, device_from_responses, link_create_outcome, wireguard_names, LinkSummary,
};
use wireguard_control::model::{
    AllowedIp, DeviceUpdate, InterfaceName, IpAddress, Key, PeerConfigBuilder, SocketAddress,
    WgError,
};

fn peer(key: u8) -> PeerConfigBuilder {
    PeerConfigBuilder {
        public_key: Key([key; 32]),
        preshared_key: None,
        endpoint: Some(SocketAddress::V4 { ip: [1, 1, 1, 1], port: 51820 }),
        persistent_keepalive_interval: Some(25),
        allowed_ips: vec![AllowedIp { address: IpAddress::V4([10, 1, 1, 1]), cidr: 24 }],
        remove_me: false,
        replace_allowed_ips: false,
    }
}

fn update(peers: Vec<PeerConfigBuilder>) -> DeviceUpdate {
    DeviceUpdate {
        private_key: Some(Key([1; 32])),
        fwmark: Some(111),
        listen_port: Some(12345),
        replace_peers: true,
        peers,
    }
}

#[test]
fn empty_update_gives_no_message() {
    let u = DeviceUpdate {
        private_key: None,
        fwmark: None,
        listen_port: None,
        replace_peers: false,
        peers: vec![],
    };
    let name = InterfaceName::from_str("wg0").unwrap();
    assert!(apply_messages(&u, &name).is_empty());
}

#[test]
fn simple_update_gives_one_message() {
    let name = InterfaceName::from_str("wg0").unwrap();
    let messages = apply_messages(&update(vec![peer(2)]), &name);
    assert_eq!(messages.len(), 1);
    let m = &messages[0];
    assert_eq!(m.len(), 6);
    assert!(matches!(&m[0], DeviceAttr::IfName(n) if n == "wg0"));
    assert!(matches!(m[1], DeviceAttr::PrivateKey(_)));
    assert!(matches!(m[2], DeviceAttr::Fwmark(111)));
    assert!(matches!(m[3], DeviceAttr::ListenPort(12345)));
    assert!(matches!(m[4], DeviceAttr::Flags(1)));
    assert!(matches!(&m[5], DeviceAttr::Peers(p) if p.len() == 1));
}

#[test]
fn bulk_update_gives_several_messages() {
    let name = InterfaceName::from_str("wg0").unwrap();
    let peers: Vec<PeerConfigBuilder> = (0..10_000).map(|_| peer(2)).collect();
    let messages = apply_messages(&update(peers), &name);
    assert!(messages.len() > 1);
    let total: usize = messages
        .iter()
        .map(|m| match m.last() {
            Some(DeviceAttr::Peers(p)) => p.len(),
            _ => 0,
        })
        .sum();
    assert_eq!(total, 10_000);
    for m in &messages {
        assert!(wireguard_control::attrs::message_size(m) + 4 < netlink_request::max_netlink_buffer_length());
    }
}

#[test]
fn peer_only_update_keeps_flags() {
    let name = InterfaceName::from_str("wg1").unwrap();
    let mut p = peer(5);
    p.remove_me = true;
    let u = DeviceUpdate { private_key: None, fwmark: None, listen_port: None, replace_peers: false, peers: vec![p] };
    let messages = apply_messages(&u, &name);
    assert_eq!(messages.len(), 1);
    match &messages[0][1] {
        DeviceAttr::Peers(peers) => assert!(matches!(peers[0].last(), Some(PeerAttr::Flags(1)))),
        other => panic!("unexpected record {:?}", other),
    }
}

#[test]
fn existing_link_counts_as_created() {
    assert_eq!(link_create_outcome(Err(WgError::AlreadyExists)), Ok(()));
    assert_eq!(link_create_outcome(Ok(())), Ok(()));
    assert_eq!(link_create_outcome(Err(WgError::Transport(1))), Err(WgError::Transport(1)));
}

#[test]
fn response_shape_is_checked() {
    assert!(matches!(device_from_responses(&vec![]), Err(WgError::InvalidResponse)));
    assert!(matches!(device_from_responses(&vec![None]), Err(WgError::InvalidResponse)));
    let ok = vec![Some(vec![DeviceAttr::IfName("wg0".to_string())])];
    assert_eq!(device_from_responses(&ok).unwrap().name.as_str(), "wg0");
    let missing = vec![Some(vec![DeviceAttr::Fwmark(1)])];
    assert!(matches!(device_from_responses(&missing), Err(WgError::RequiredFieldMissing)));
}

#[test]
fn enumeration_keeps_valid_tunnel_names() {
    let link = |new_link: bool, wireguard: bool, name: Option<&str>| LinkSummary {
        new_link,
        wireguard,
        name: name.map(|n| n.to_string()),
    };
    let links = vec![
        link(true, true, Some("wg0")),
        link(true, false, Some("eth0")),
        link(false, true, Some("wg1")),
        link(true, true, None),
        link(true, true, Some("bad name")),
        link(true, true, Some("wg2")),
    ];
    let names: Vec<String> = wireguard_names(&links).iter().map(|n| n.as_str().to_string()).collect();
    assert_eq!(names, vec!["wg0".to_string(), "wg2".to_string()]);
}

#[test]
fn interface_names_are_validated() {
    assert!(InterfaceName::from_str("wg0").is_ok());
    assert!(InterfaceName::from_str("abcdefghijklmno").is_ok());
    assert_eq!(InterfaceName::from_str("abcdefghijklmnop").err(), Some(WgError::InvalidName));
    assert_eq!(InterfaceName::from_str("").err(), Some(WgError::InvalidName));
    assert_eq!(InterfaceName::from_str("a b").err(), Some(WgError::InvalidName));
    assert_eq!(InterfaceName::from_str("a/b").err(), Some(WgError::InvalidName));
    assert_eq!(InterfaceName::from_str("wé").err(), Some(WgError::InvalidName));
}
