use wasmnet::ip::{IpAddress, SocketAddress};
use wasmnet::policy::{NetworkPolicy, PolicyConfig};
use wasmnet::server::BuildError;
use wasmnet::{Server, ServerBuilder};

/// An address written the usual way, as the library's plain value.
fn ip(s: &str) -> IpAddress {
    match s.parse::<core::net::IpAddr>().unwrap() {
        core::net::IpAddr::V4(a) => IpAddress { v6: false, bits: u32::from(a) as u128 },
        core::net::IpAddr::V6(a) => IpAddress { v6: true, bits: u128::from(a) },
    }
}

fn loopback(port: u16) -> SocketAddress {
    SocketAddress { ip: ip("127.0.0.1"), port, flowinfo: 0, scope_id: 0 }
}

#[test]
fn builder_defaults_to_all_interfaces_on_9000_with_the_default_policy() {
    let server = ServerBuilder::new().build().unwrap();
    let addr = server.addr();
    assert_eq!(addr.port, 9000);
    assert_eq!(addr.ip, ip("0.0.0.0"));
    assert!(server.policy().check_connect("10.0.0.1", 80).is_err());
    assert!(server.policy().check_connect("8.8.8.8", 53).is_ok());
    assert_eq!(server.pool_settings(), None);
    // The default policy limits bandwidth to 10 Mbps.
    let (_, mut limiter, _, _) = server.into_parts();
    assert_eq!(limiter.consume(0, 1_250_000), 0);
    assert!(limiter.consume(0, 1) > 0);
}

#[test]
fn builder_sets_host_and_port() {
    let server = Server::builder().host("127.0.0.1").port(8080).build().unwrap();
    assert_eq!(server.addr(), loopback(8080));
    let server = ServerBuilder::default().addr("[::1]", 7000).build().unwrap();
    assert_eq!(server.addr().ip, ip("::1"));
    assert_eq!(server.addr().port, 7000);
}

#[test]
fn builder_rejects_an_address_that_does_not_parse() {
    match ServerBuilder::new().host("not a host").build() {
        Err(BuildError::InvalidAddress { text }) => assert_eq!(text, "not a host:9000"),
        Ok(_) => panic!("expected an error"),
    }
    // A bare IPv6 literal needs brackets.
    assert!(ServerBuilder::new().host("::1").build().is_err());
}

#[test]
fn no_policy_wins_over_a_given_policy() {
    let strict = NetworkPolicy { allow: vec![], ..Default::default() };
    let server = ServerBuilder::new().policy(strict).no_policy().build().unwrap();
    assert!(server.policy().check_connect("10.0.0.1", 22).is_ok());
    let (_, mut limiter, _, _) = server.into_parts();
    assert_eq!(limiter.consume(0, usize::MAX), 0);
}

#[test]
fn a_given_policy_wins_over_a_policy_file() {
    let open = NetworkPolicy { deny: vec![], ..Default::default() };
    let config = PolicyConfig::default();
    let server = ServerBuilder::new().policy_config(config).policy(open).build().unwrap();
    assert!(server.policy().check_connect("10.0.0.1", 22).is_ok());
    let config = PolicyConfig::default();
    let server = ServerBuilder::new().policy_config(config).build().unwrap();
    assert!(server.policy().check_connect("10.0.0.1", 22).is_err());
}

#[test]
fn explicit_bandwidth_wins_over_the_policy() {
    let server = ServerBuilder::new().max_bandwidth_mbps(0).build().unwrap();
    let (_, mut limiter, _, _) = server.into_parts();
    assert_eq!(limiter.consume(0, usize::MAX), 0);
    let server = ServerBuilder::new().max_bandwidth_mbps(1).build().unwrap();
    let (_, mut limiter, _, _) = server.into_parts();
    assert_eq!(limiter.consume(0, 125_000), 0);
    assert_eq!(limiter.consume(0, 125), 1_000_000);
}

#[test]
fn pool_settings_are_passed_on() {
    let server = ServerBuilder::new().pool(60, 8).build().unwrap();
    assert_eq!(server.pool_settings(), Some((60, 8)));
}

#[test]
fn direct_constructors() {
    let server = Server::new(NetworkPolicy::default(), loopback(1));
    assert!(server.policy().check_connect("127.0.0.1", 80).is_err());
    assert_eq!(server.addr(), loopback(1));
    let server = Server::from_config(PolicyConfig::default(), loopback(2));
    assert!(server.policy().check_bind(80).is_err());
    let server = Server::allow_all(loopback(3));
    assert!(server.policy().check_connect("127.0.0.1", 80).is_ok());
    assert!(server.policy().check_bind(80).is_ok());
    let (policy, mut limiter, pool, addr) = server.into_parts();
    assert_eq!(policy.max_connections(), usize::MAX);
    assert_eq!(limiter.consume(0, usize::MAX), 0);
    assert_eq!(pool, None);
    assert_eq!(addr, loopback(3));
}
