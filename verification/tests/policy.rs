use wasmnet::ip::IpAddress;
use wasmnet::policy::rules::{normalize_domain, parse_port_ranges, split_host_port, DomainPattern};
use wasmnet::policy::{NetworkPolicy, Policy, PolicyConfig};

/// An address written the usual way, as the library's plain value.
fn ip(s: &str) -> IpAddress {
    match s.parse::<core::net::IpAddr>().unwrap() {
        core::net::IpAddr::V4(a) => IpAddress { v6: false, bits: u32::from(a) as u128 },
        core::net::IpAddr::V6(a) => IpAddress { v6: true, bits: u128::from(a) },
    }
}

fn policy(deny: &[&str], allow: &[&str]) -> Policy {
    Policy::new(&NetworkPolicy {
        deny: deny.iter().map(|s| s.to_string()).collect(),
        allow: allow.iter().map(|s| s.to_string()).collect(),
        ..Default::default()
    })
}

#[test]
fn default_policy_blocks_private() {
    let policy = Policy::new(&NetworkPolicy::default());
    assert!(policy.check_connect("10.0.0.1", 22).is_err());
    assert!(policy.check_connect("192.168.1.1", 80).is_err());
    assert!(policy.check_connect("127.0.0.1", 8080).is_err());
}

#[test]
fn default_policy_allows_public() {
    let policy = Policy::new(&NetworkPolicy::default());
    assert!(policy.check_connect("8.8.8.8", 53).is_ok());
    assert!(policy.check_connect("api.example.com", 443).is_ok());
}

#[test]
fn bind_port_check() {
    let policy = Policy::new(&NetworkPolicy::default());
    assert!(policy.check_bind(3000).is_ok());
    assert!(policy.check_bind(9999).is_ok());
    assert!(policy.check_bind(80).is_err());
    assert!(policy.check_bind(22).is_err());
}

#[test]
fn deny_all_with_allowlist() {
    let policy = policy(&["*"], &["api.example.com:443"]);
    assert!(policy.check_connect("api.example.com", 443).is_ok());
    assert!(policy.check_connect("evil.com", 80).is_err());
}

#[test]
fn resolved_address_hits_the_deny_list() {
    let policy = Policy::new(&NetworkPolicy::default());
    assert!(policy.check_connect("localhost", 80).is_ok());
    assert!(policy
        .check_resolved(&ip("127.0.0.1"), 80)
        .is_err());
    assert!(policy
        .check_resolved(&ip("169.254.169.254"), 80)
        .is_err());
    assert!(policy
        .check_resolved(&ip("8.8.8.8"), 80)
        .is_ok());
}

#[test]
fn domain_rule_port_is_enforced() {
    let policy = policy(&[], &["api.example.com:443"]);
    assert!(policy.check_connect("api.example.com", 443).is_ok());
    assert!(policy.check_connect("api.example.com", 22).is_err());
}

#[test]
fn domain_rule_without_port_covers_every_port() {
    let policy = policy(&[], &["api.example.com"]);
    assert!(policy.check_connect("api.example.com", 443).is_ok());
    assert!(policy.check_connect("api.example.com", 22).is_ok());
}

#[test]
fn deny_rule_port_is_enforced() {
    let policy = policy(&["evil.com:22"], &["*"]);
    assert!(policy.check_connect("evil.com", 22).is_err());
    assert!(policy.check_connect("evil.com", 443).is_ok());
}

#[test]
fn cidr_rule_port_is_enforced() {
    let policy = policy(&["10.0.0.0/8:22"], &["*"]);
    assert!(policy.check_connect("10.1.2.3", 22).is_err());
    assert!(policy.check_connect("10.1.2.3", 443).is_ok());
}

#[test]
fn bare_ip_rule_is_a_single_host_network() {
    let policy = policy(&["1.2.3.4"], &["*"]);
    assert!(policy.check_connect("1.2.3.4", 80).is_err());
    assert!(policy.check_connect("1.2.3.5", 80).is_ok());
}

#[test]
fn bracketed_ipv6_rule_carries_a_port() {
    let policy = policy(&["[::1]:80", "fd00::/8"], &["*"]);
    assert!(policy.check_connect("::1", 80).is_err());
    assert!(policy.check_connect("::1", 443).is_ok());
    assert!(policy.check_connect("fd00::1", 443).is_err());
}

#[test]
fn deny_covers_subdomains_and_the_apex() {
    let policy = policy(&["evil.com", "*.blocked.com"], &["*"]);
    assert!(policy.check_connect("evil.com", 80).is_err());
    assert!(policy.check_connect("EVIL.com", 80).is_err());
    assert!(policy.check_connect("sub.evil.com", 80).is_err());
    assert!(policy.check_connect("deep.sub.evil.com", 80).is_err());
    assert!(policy.check_connect("blocked.com", 80).is_err());
    assert!(policy.check_connect("x.blocked.com", 80).is_err());
}

#[test]
fn trailing_dot_does_not_escape_a_rule() {
    let policy = policy(&["evil.com"], &["*"]);
    assert!(policy.check_connect("evil.com.", 80).is_err());
    assert!(policy.check_connect("sub.evil.com.", 80).is_err());
}

#[test]
fn allow_covers_subdomains_and_the_apex() {
    let policy = policy(&["*"], &["*.github.com"]);
    assert!(policy.check_connect("api.github.com", 443).is_ok());
    assert!(policy.check_connect("github.com", 443).is_ok());
    assert!(policy.check_connect("api.github.com.", 443).is_ok());
    assert!(policy.check_connect("notgithub.com", 443).is_err());
}

#[test]
fn a_lookalike_suffix_does_not_match() {
    let policy = policy(&["evil.com"], &["*"]);
    assert!(policy.check_connect("notevil.com", 80).is_ok());
    assert!(policy.check_connect("evil.com.attacker.net", 80).is_ok());
}

#[test]
fn deny_wins_over_allow() {
    let policy = policy(&["sub.example.com"], &["example.com"]);
    assert!(policy.check_connect("example.com", 443).is_ok());
    assert!(policy.check_connect("sub.example.com", 443).is_err());
}

// ── exact messages ──

#[test]
fn refusal_messages_name_the_target_and_the_rule() {
    let p = Policy::new(&NetworkPolicy::default());
    assert_eq!(
        p.check_connect("10.0.0.1", 22).unwrap_err(),
        "private IP range blocked: 10.0.0.0/8"
    );
    assert_eq!(p.check_bind(80).unwrap_err(), "port 80 not in allowed bind range");
    let p = policy(&["evil.com"], &["*"]);
    assert_eq!(
        p.check_connect("EVIL.com", 80).unwrap_err(),
        "domain blocked by policy: EVIL.com"
    );
    let p = policy(&["*"], &["api.example.com:443"]);
    assert_eq!(
        policy(&[], &["api.example.com:443"]).check_connect("evil.com", 80).unwrap_err(),
        "address not in allow list: evil.com:80"
    );
    assert_eq!(
        p.check_connect("evil.com", 80).unwrap_err(),
        "address blocked by policy (deny-all): evil.com:80"
    );
}

#[test]
fn ipv6_refusal_renders_the_address() {
    let p = policy(&["fd00::/8"], &["*"]);
    assert_eq!(
        p.check_connect("fd00::1", 443).unwrap_err(),
        "private IP range blocked: fd00::/8"
    );
}

#[test]
fn allow_all_policy_allows_every_target_and_port() {
    let p = Policy::allow_all();
    assert!(p.check_connect("10.0.0.1", 22).is_ok());
    assert!(p.check_connect("localhost", 1).is_ok());
    assert!(p.check_resolved(&ip("127.0.0.1"), 80).is_ok());
    assert!(p.check_bind(1).is_ok());
    assert!(p.check_bind(65535).is_ok());
    assert!(p.check_bind(0).is_ok());
}

#[test]
fn default_settings_are_carried_over() {
    let p = Policy::new(&PolicyConfig::default().network);
    assert_eq!(p.max_connections(), 50);
    assert_eq!(p.connection_timeout_secs(), 30);
    let d = NetworkPolicy::default();
    assert_eq!(d.deny.len(), 5);
    assert_eq!(d.allow, vec!["*".to_string()]);
    assert_eq!(d.bind_ports, "3000-9999");
    assert_eq!(d.max_bandwidth_mbps, 10);
}

// ── rule parsing ──

#[test]
fn normalize_lowers_and_drops_one_trailing_dot() {
    assert_eq!(normalize_domain("EVIL.Com."), "evil.com");
    assert_eq!(normalize_domain("a.b"), "a.b");
}

#[test]
fn split_host_port_reads_the_last_colon() {
    let s = |h: &str, p: Option<u16>| (h.to_string(), p);
    assert_eq!(split_host_port("example.com:443"), s("example.com", Some(443)));
    assert_eq!(split_host_port("example.com"), s("example.com", None));
    assert_eq!(split_host_port("[::1]:80"), s("::1", Some(80)));
    assert_eq!(split_host_port("::1"), s("::1", None));
    assert_eq!(split_host_port("host:notaport"), s("host:notaport", None));
}

#[test]
fn port_ranges_skip_what_does_not_parse() {
    assert_eq!(parse_port_ranges("3000-9999"), vec![(3000, 9999)]);
    assert_eq!(parse_port_ranges(" 80 , 8000-8080,x"), vec![(80, 80), (8000, 8080)]);
    assert_eq!(parse_port_ranges(""), Vec::<(u16, u16)>::new());
}

#[test]
fn domain_pattern_parse_and_match() {
    let d = DomainPattern::parse("*.Example.com:443").unwrap();
    assert!(d.matches("api.example.com", 443));
    assert!(d.matches("example.com", 443));
    assert!(!d.matches("example.com", 80));
    assert!(!d.matches("badexample.com", 443));
    assert!(DomainPattern::parse("").is_none());
}

#[test]
fn ascii_case_and_a_trailing_dot_do_not_change_the_answer() {
    let p = policy(&["*"], &["api.example.com:443"]);
    for name in ["api.example.com", "API.EXAMPLE.COM", "api.example.com.", "Api.Example.Com."] {
        assert!(p.check_connect(name, 443).is_ok(), "{name}");
    }
}

#[test]
fn more_deny_admits_no_more_and_more_allow_refuses_no_more() {
    let base = policy(&["10.0.0.0/8"], &["*"]);
    let more_deny = policy(&["10.0.0.0/8", "example.com"], &["*"]);
    assert!(base.check_connect("example.com", 80).is_ok());
    assert!(more_deny.check_connect("example.com", 80).is_err());
    let strict = policy(&["*"], &["a.com"]);
    let more_allow = policy(&["*"], &["a.com", "b.com"]);
    assert!(strict.check_connect("b.com", 80).is_err());
    assert!(more_allow.check_connect("b.com", 80).is_ok());
    assert!(more_allow.check_connect("a.com", 80).is_ok());
}

#[test]
fn a_bare_star_and_an_empty_text_are_no_domain_rule() {
    assert!(DomainPattern::parse("*").is_none());
    assert!(DomainPattern::parse("").is_none());
}
