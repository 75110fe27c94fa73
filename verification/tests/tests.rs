use common::errors::IniError;
use common::errors::NotSetError;
use common::ini::parse_ini;
use common::text::string_from_chars;
use common::traits::Parsable;
use common::traits::Validatable;
use common::types::Device;
use common::types::Fleet;
use common::types::Interface;
use common::types::KeyPair;
use common::types::Peer;
use common::types::WireGuard;

fn sample_tunnel() -> WireGuard {
    WireGuard {
        created_at: 1234567890,
        uuid: "wireguard-uuid".to_string(),
        device_uuid: "device-uuid".to_string(),
        interface: Interface {
            private_key: "private-key".to_string(),
            address: "10.0.0.1/24".to_string(),
            listen_port: Some(51820),
        },
        peers: vec![Peer {
            public_key: "public-key".to_string(),
            allowed_ips: vec!["10.0.0.2/32".to_string()],
            endpoint: Some("example.com:51820".to_string()),
        }],
        api_url: "https://api.example.com".to_string(),
        file: "/path/to/wireguard/file".to_string(),
        wireguard_file: "/path/to/wireguard/config".to_string(),
    }
}

#[test]
fn test_fleet_instantiation() {
    let fleet = Fleet {
        container_registry: "registry.example.com".to_string(),
        created_at: 1234567890,
        description: "Test fleet".to_string(),
        image: "example/image:latest".to_string(),
        name: "TestFleet".to_string(),
        platform: "linux/amd64".to_string(),
        device_uuids: vec!["device-uuid-1".to_string()],
        user_uuids: vec!["user-uuid-1".to_string()],
        uuid: "fleet-uuid".to_string(),
        wireguard_uuids: vec!["wireguard-uuid-1".to_string()],
    };
    assert_eq!(fleet.name, "TestFleet");
}

#[test]
fn test_device_instantiation() {
    let device = Device {
        created_at: 1234567890,
        uuid: "device-uuid".to_string(),
        wireguard_uuid: "wireguard-uuid".to_string(),
        fleet_uuid: "fleet-uuid".to_string(),
        api_url: "https://api.example.com".to_string(),
        file: "/path/to/device/file".to_string(),
    };
    assert_eq!(device.uuid, "device-uuid");
}

#[test]
fn test_wireguard_instantiation() {
    let wireguard = sample_tunnel();
    assert_eq!(wireguard.uuid, "wireguard-uuid");
}

#[test]
fn test_interface_instantiation() {
    let interface = Interface {
        private_key: "private-key".to_string(),
        address: "10.0.0.1/24".to_string(),
        listen_port: Some(51820),
    };
    assert_eq!(interface.address, "10.0.0.1/24");
}

#[test]
fn test_peer_instantiation() {
    let peer = Peer {
        public_key: "public-key".to_string(),
        allowed_ips: vec!["10.0.0.2/32".to_string()],
        endpoint: Some("example.com:51820".to_string()),
    };
    assert_eq!(peer.public_key, "public-key");
}

#[test]
fn test_keypair_instantiation() {
    let keypair = KeyPair {
        private_key: "private-key".to_string(),
        public_key: "public-key".to_string(),
    };
    assert_eq!(keypair.private_key, "private-key");
    assert_eq!(keypair.public_key, "public-key");
}

#[test]
fn test_parse_example_document() {
    let doc = "[Interface]\nPrivateKey = pk1\nAddress = 10.0.0.1/24\n\n[Peer]\nPublicKey = pub1\nAllowedIPs = 10.0.0.2/32,10.0.0.3/32\nEndpoint = example.com:51820\n";
    let parsed = sample_tunnel().parse_config(doc).unwrap();
    assert_eq!(parsed.interface.private_key, "pk1");
    assert_eq!(parsed.interface.address, "10.0.0.1/24");
    assert_eq!(parsed.interface.listen_port, None);
    assert_eq!(parsed.peers.len(), 1);
    assert_eq!(parsed.peers[0].public_key, "pub1");
    assert_eq!(
        parsed.peers[0].allowed_ips,
        vec!["10.0.0.2/32".to_string(), "10.0.0.3/32".to_string()]
    );
    assert_eq!(parsed.peers[0].endpoint, Some("example.com:51820".to_string()));
}

#[test]
fn test_parse_preserves_template_fields() {
    let doc = "[Interface]\nPrivateKey = pk1\nAddress = 10.0.0.9/24\n";
    let parsed = sample_tunnel().parse_config(doc).unwrap();
    assert_eq!(parsed.created_at, 1234567890);
    assert_eq!(parsed.uuid, "wireguard-uuid");
    assert_eq!(parsed.device_uuid, "device-uuid");
    assert_eq!(parsed.api_url, "https://api.example.com");
    assert_eq!(parsed.file, "/path/to/wireguard/file");
    assert_eq!(parsed.wireguard_file, "/path/to/wireguard/config");
    assert_eq!(parsed.peers.len(), 0);
}

#[test]
fn test_render_exact() {
    let tunnel = sample_tunnel();
    let expected = "[Interface]\nPrivateKey = private-key\nAddress = 10.0.0.1/24\nListenPort = 51820\n\n[Peer]\nPublicKey = public-key\nAllowedIPs = 10.0.0.2/32\nEndpoint = example.com:51820\n";
    assert_eq!(tunnel.render(), expected);
}

#[test]
fn test_round_trip_semantic() {
    let doc = "[Interface]\nPrivateKey = pk1\nAddress = 10.0.0.1/24\nListenPort = 7\n\n[Peer]\nPublicKey = pub1\nAllowedIPs = 10.0.0.2/32, 10.0.0.3/32\n";
    let once = sample_tunnel().parse_config(doc).unwrap();
    let again = once.parse_config(&once.render()).unwrap();
    assert_eq!(again.interface.private_key, once.interface.private_key);
    assert_eq!(again.interface.address, once.interface.address);
    assert_eq!(again.interface.listen_port, once.interface.listen_port);
    assert_eq!(again.peers.len(), once.peers.len());
    for (a, b) in again.peers.iter().zip(once.peers.iter()) {
        assert_eq!(a.public_key, b.public_key);
        assert_eq!(a.allowed_ips, b.allowed_ips);
        assert_eq!(a.endpoint, b.endpoint);
    }
}

#[test]
fn test_allowed_ips_order_preserved() {
    let doc = "[Interface]\nPrivateKey = pk\nAddress = a\n\n[Peer]\nPublicKey = p\nAllowedIPs = 10.0.0.3/32,10.0.0.1/32,10.0.0.2/32\n";
    let once = sample_tunnel().parse_config(doc).unwrap();
    assert_eq!(
        once.peers[0].allowed_ips,
        vec!["10.0.0.3/32", "10.0.0.1/32", "10.0.0.2/32"]
    );
    let again = once.parse_config(&once.render()).unwrap();
    assert_eq!(again.peers[0].allowed_ips, once.peers[0].allowed_ips);
}

#[test]
fn test_listen_port_omission() {
    let doc = "[Interface]\nPrivateKey = pk\nAddress = 10.0.0.1/24\n";
    let parsed = sample_tunnel().parse_config(doc).unwrap();
    assert_eq!(parsed.interface.listen_port, None);
    let rendered = parsed.render();
    assert!(!rendered.contains("ListenPort"));
}

#[test]
fn test_listen_port_best_effort() {
    let doc = "[Interface]\nPrivateKey = pk\nAddress = a\nListenPort = not-a-number\n";
    let parsed = sample_tunnel().parse_config(doc).unwrap();
    assert_eq!(parsed.interface.listen_port, None);
    let doc2 = "[Interface]\nPrivateKey = pk\nAddress = a\nListenPort = 51820\n";
    let parsed2 = sample_tunnel().parse_config(doc2).unwrap();
    assert_eq!(parsed2.interface.listen_port, Some(51820));
    let doc3 = "[Interface]\nListenPort = 70000\n";
    let parsed3 = sample_tunnel().parse_config(doc3).unwrap();
    assert_eq!(parsed3.interface.listen_port, None);
}

#[test]
fn test_parse_malformed_document() {
    let doc = "[Interface\nPrivateKey = pk\n";
    let err = sample_tunnel().parse_config(doc).unwrap_err();
    assert_eq!(err, IniError::Malformed);
    let doc2 = "[Interface]\nno equals sign here\n";
    assert_eq!(sample_tunnel().parse_config(doc2).unwrap_err(), IniError::Malformed);
}

#[test]
fn test_parse_ignores_comments_and_unknown_keys() {
    let doc = "; leading comment\n[Interface]\n# another comment\nPrivateKey = pk\nAddress = a\nMtu = 1420\n";
    let parsed = sample_tunnel().parse_config(doc).unwrap();
    assert_eq!(parsed.interface.private_key, "pk");
    assert_eq!(parsed.interface.address, "a");
}

#[test]
fn test_parse_ini_sections() {
    let secs = parse_ini("[One]\na = 1\n\n[Two]\nb = 2 = 3\n").unwrap();
    assert_eq!(secs.len(), 2);
    assert_eq!(secs[0].name, "One");
    assert_eq!(secs[0].props.len(), 1);
    assert_eq!(secs[0].props[0].key, "a");
    assert_eq!(secs[0].props[0].value, "1");
    assert_eq!(secs[1].name, "Two");
    assert_eq!(secs[1].props[0].key, "b");
    assert_eq!(secs[1].props[0].value, "2 = 3");
}

#[test]
fn test_validate_device_created_at() {
    let device = Device {
        created_at: 0,
        uuid: "device-uuid".to_string(),
        wireguard_uuid: "wireguard-uuid".to_string(),
        fleet_uuid: "fleet-uuid".to_string(),
        api_url: "https://api.example.com".to_string(),
        file: "/path/to/device/file".to_string(),
    };
    assert_eq!(device.validate().unwrap_err(), NotSetError::CreatedAt);
}

#[test]
fn test_validate_device_field_order() {
    let good = Device {
        created_at: 1,
        uuid: "u".to_string(),
        wireguard_uuid: String::new(),
        fleet_uuid: "f".to_string(),
        api_url: "a".to_string(),
        file: "p".to_string(),
    };
    assert!(good.validate().is_ok());
    let mut d = good.clone();
    d.uuid = String::new();
    assert_eq!(d.validate().unwrap_err(), NotSetError::Uuid);
    let mut d = good.clone();
    d.fleet_uuid = String::new();
    assert_eq!(d.validate().unwrap_err(), NotSetError::Fleet);
    let mut d = good.clone();
    d.api_url = String::new();
    assert_eq!(d.validate().unwrap_err(), NotSetError::ApiUrl);
    let mut d = good.clone();
    d.file = String::new();
    assert_eq!(d.validate().unwrap_err(), NotSetError::File);
    let mut d = good.clone();
    d.uuid = String::new();
    d.file = String::new();
    assert_eq!(d.validate().unwrap_err(), NotSetError::Uuid);
}

#[test]
fn test_validate_wireguard_field_order() {
    let good = sample_tunnel();
    assert!(good.validate().is_ok());
    let mut w = good.clone();
    w.created_at = 0;
    assert_eq!(w.validate().unwrap_err(), NotSetError::CreatedAt);
    let mut w = good.clone();
    w.interface.private_key = String::new();
    assert_eq!(w.validate().unwrap_err(), NotSetError::PrivateKey);
    let mut w = good.clone();
    w.interface.address = String::new();
    assert_eq!(w.validate().unwrap_err(), NotSetError::Address);
    let mut w = good.clone();
    w.peers = vec![];
    assert_eq!(w.validate().unwrap_err(), NotSetError::Peers);
    let mut w = good.clone();
    w.api_url = String::new();
    assert_eq!(w.validate().unwrap_err(), NotSetError::ApiUrl);
    let mut w = good.clone();
    w.file = String::new();
    assert_eq!(w.validate().unwrap_err(), NotSetError::File);
    let mut w = good.clone();
    w.wireguard_file = String::new();
    assert_eq!(w.validate().unwrap_err(), NotSetError::WireguardFile);
}

#[test]
fn test_device_summary() {
    let device = Device {
        created_at: 1,
        uuid: "u1".to_string(),
        wireguard_uuid: "w1".to_string(),
        fleet_uuid: "f1".to_string(),
        api_url: "http://a".to_string(),
        file: "/f".to_string(),
    };
    assert_eq!(device.summary(), "uuid: u1, fleet: f1, api_url: http://a");
}

#[test]
fn test_fleet_summary() {
    let fleet = Fleet {
        container_registry: "reg".to_string(),
        created_at: 42,
        description: "d".to_string(),
        image: "img".to_string(),
        name: "n".to_string(),
        platform: "p".to_string(),
        device_uuids: vec!["d1".to_string(), "d2".to_string()],
        user_uuids: vec!["u1".to_string()],
        uuid: "id".to_string(),
        wireguard_uuids: vec![],
    };
    assert_eq!(
        fleet.summary(),
        "name: n, platform: p, image: img, created_at: 42, description: d, container_registry: reg, uuid: id, devices: [d1, d2], users: [u1], wireguards: []"
    );
}

#[test]
fn test_string_from_chars_appends() {
    let chars = vec!['p', 'o', 'r', 't'];
    assert_eq!(string_from_chars(&chars), "port");
}

#[test]
fn test_interface_and_peer_render() {
    let interface = Interface {
        private_key: "pk".to_string(),
        address: "addr".to_string(),
        listen_port: None,
    };
    assert_eq!(interface.render(), "[Interface]\nPrivateKey = pk\nAddress = addr\n");
    let peer = Peer {
        public_key: "pub".to_string(),
        allowed_ips: vec!["a".to_string(), "b".to_string()],
        endpoint: None,
    };
    assert_eq!(peer.render(), "[Peer]\nPublicKey = pub\nAllowedIPs = a,b\n");
}

#[test]
fn test_parsable_trait_parse() {
    let doc = "[Interface]\nPrivateKey = pk\nAddress = 10.0.0.1/24\n";
    let parsed = sample_tunnel().parse(doc).unwrap();
    assert_eq!(parsed.interface.private_key, "pk");
    assert_eq!(parsed.interface.address, "10.0.0.1/24");
    assert_eq!(parsed.uuid, "wireguard-uuid");
    assert!(sample_tunnel().parse("[broken").is_err());
}

#[test]
fn test_multiple_peers_never_merged() {
    let doc = "[Interface]\nPrivateKey = pk\nAddress = a\n\n[Peer]\nPublicKey = p1\nAllowedIPs = x\n\n[Peer]\nPublicKey = p2\nAllowedIPs = y\n";
    let parsed = sample_tunnel().parse_config(doc).unwrap();
    assert_eq!(parsed.peers.len(), 2);
    assert_eq!(parsed.peers[0].public_key, "p1");
    assert_eq!(parsed.peers[1].public_key, "p2");
    assert_eq!(parsed.peers[1].allowed_ips, vec!["y"]);
    assert_eq!(parsed.peers[1].endpoint, None);
}
