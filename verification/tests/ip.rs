use wasmnet::ip::{address_to_string, network_to_string, IpAddress, IpNetwork};
use wasmnet::policy::rules::NetRule;
use wasmnet::ServerBuilder;

fn net(s: &str) -> IpNetwork {
    NetRule::parse(s).unwrap().net
}

#[test]
fn rules_parse_networks_with_their_prefix() {
    assert_eq!(net("10.0.0.0/8"), IpNetwork { v6: false, addr: 0x0a000000, prefix_len: 8 });
    assert_eq!(net("fd00::/8"), IpNetwork { v6: true, addr: 0xfd00u128 << 112, prefix_len: 8 });
    // A bare address is a single-host network.
    assert_eq!(net("10.1.2.3"), IpNetwork { v6: false, addr: 0x0a010203, prefix_len: 32 });
    assert_eq!(net("::1"), IpNetwork { v6: true, addr: 1, prefix_len: 128 });
    // A port qualifies the rule, not the network.
    let r = NetRule::parse("10.0.0.0/8:22").unwrap();
    assert_eq!((r.net, r.port), (net("10.0.0.0/8"), Some(22)));
    assert!(NetRule::parse("10.0.0.0/33").is_none());
    assert!(NetRule::parse("example.com").is_none());
}

#[test]
fn networks_contain_what_their_prefix_covers() {
    let n = net("10.0.0.0/8");
    assert!(n.contains(&IpAddress { v6: false, bits: 0x0aff0001 }));
    assert!(!n.contains(&IpAddress { v6: false, bits: 0x0b000001 }));
    assert!(!n.contains(&IpAddress { v6: true, bits: 0x0a000001 }));
    let all = net("0.0.0.0/0");
    assert!(all.contains(&IpAddress { v6: false, bits: 0xffffffff }));
    let host = IpNetwork::from_address(IpAddress { v6: false, bits: 0x01020304 });
    assert!(host.contains(&IpAddress { v6: false, bits: 0x01020304 }));
    assert!(!host.contains(&IpAddress { v6: false, bits: 0x01020305 }));
    let rule = NetRule::parse("10.0.0.0/8:22").unwrap();
    assert!(rule.matches(&IpAddress { v6: false, bits: 0x0a000001 }, 22));
    assert!(!rule.matches(&IpAddress { v6: false, bits: 0x0a000001 }, 23));
}

#[test]
fn addresses_and_networks_render_as_std_does() {
    assert_eq!(address_to_string(&IpAddress { v6: false, bits: 0xc0a80001 }), "192.168.0.1");
    assert_eq!(address_to_string(&IpAddress { v6: true, bits: (0xfd00u128 << 112) | 1 }), "fd00::1");
    assert_eq!(network_to_string(&net("172.16.0.0/12")), "172.16.0.0/12");
    assert_eq!(network_to_string(&net("fd00::/8")), "fd00::/8");
}

#[test]
fn socket_addresses_parse_when_a_server_is_built() {
    let a = ServerBuilder::new().addr("127.0.0.1", 80).build().unwrap().addr();
    assert_eq!((a.ip, a.port), (IpAddress { v6: false, bits: 0x7f000001 }, 80));
    let b = ServerBuilder::new().addr("[::1]", 443).build().unwrap().addr();
    assert_eq!((b.ip, b.port), (IpAddress { v6: true, bits: 1 }, 443));
    assert!(ServerBuilder::new().addr("localhost", 80).build().is_err());
}
