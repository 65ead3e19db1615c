//! Egress policy: allow/deny lists for networks and domains, bind ports and
//! session limits.
//!
//! Deny rules are evaluated first: a target that matches one is refused
//! whatever the allow list says. A literal IP is matched against the CIDR
//! rules, a hostname against the domain rules; once a hostname is resolved,
//! each address it resolved to is checked again against the CIDR deny rules
//! ([`Policy::check_resolved`]).
pub mod rules;

use vstd::prelude::*;
use crate::ip::{
    IpAddress, IpNetwork, address_of, address_text, address_to_string, ip_addr_parse,
    network_text, network_to_string, parse_ip_address,
};
use crate::text::{
    ascii_lower_char, ascii_lowercase, ascii_upper_char, ascii_uppercase, ends_with, is_ascii_text,
    strings_view, decimal_spec, decimal_string, chars_of, strip_dot_spec, trim, trim_spec,
};
use self::rules::{
    DomainPattern, DomainRule, NetRule, domain_rule_matches, domain_rule_spec, net_rule_spec, normalize_spec,
    parse_port_ranges, port_ranges_spec,
};

verus! {

// ── configuration ──────────────────────────────────────────────────────

/// The `[network]` table of a policy file.
#[derive(Debug, Clone)]
pub struct NetworkPolicy {
    pub deny: Vec<String>,
    pub allow: Vec<String>,
    pub bind_ports: String,
    pub max_connections: usize,
    pub max_bandwidth_mbps: u32,
    pub connection_timeout_secs: u64,
}

/// A whole policy file.
#[derive(Debug, Clone)]
pub struct PolicyConfig {
    pub network: NetworkPolicy,
}

/// The deny list shipped by default: the private and link-local ranges.
pub open spec fn default_deny_spec() -> Seq<Seq<char>> {
    seq![
        "10.0.0.0/8"@,
        "172.16.0.0/12"@,
        "192.168.0.0/16"@,
        "127.0.0.0/8"@,
        "169.254.0.0/16"@,
    ]
}

/// The allow list shipped by default: everything.
pub open spec fn default_allow_spec() -> Seq<Seq<char>> {
    seq![seq!['*']]
}

pub fn default_deny() -> (r: Vec<String>)
    ensures
        strings_view(r@) == default_deny_spec(),
{
    let mut v: Vec<String> = Vec::new();
    v.push(String::from_str("10.0.0.0/8"));
    v.push(String::from_str("172.16.0.0/12"));
    v.push(String::from_str("192.168.0.0/16"));
    v.push(String::from_str("127.0.0.0/8"));
    v.push(String::from_str("169.254.0.0/16"));
    assert(strings_view(v@) =~= default_deny_spec());
    v
}

pub fn default_allow() -> (r: Vec<String>)
    ensures
        strings_view(r@) == default_allow_spec(),
{
    let mut v: Vec<String> = Vec::new();
    let mut star: Vec<char> = Vec::new();
    star.push('*');
    v.push(crate::text::string_from_chars(star.as_slice()));
    assert(strings_view(v@) =~= default_allow_spec());
    v
}

pub fn default_bind_ports() -> (r: String)
    ensures
        r@ == "3000-9999"@,
{
    String::from_str("3000-9999")
}

pub fn default_max_connections() -> (r: usize)
    ensures
        r == 50,
{
    50
}

pub fn default_max_bandwidth_mbps() -> (r: u32)
    ensures
        r == 10,
{
    10
}

pub fn default_connection_timeout_secs() -> (r: u64)
    ensures
        r == 30,
{
    30
}

/// The default policy: block the private ranges, allow everything else,
/// bind ports 3000-9999, 50 connections, 10 Mbps, 30 s connect timeout.
pub open spec fn is_default_network_policy(p: NetworkPolicy) -> bool {
    &&& strings_view(p.deny@) == default_deny_spec()
    &&& strings_view(p.allow@) == default_allow_spec()
    &&& p.bind_ports@ == "3000-9999"@
    &&& p.max_connections == 50
    &&& p.max_bandwidth_mbps == 10
    &&& p.connection_timeout_secs == 30
}

/// What the default policy compiles to.
pub open spec fn default_policy_model() -> PolicyModel {
    PolicyModel {
        deny_nets: nets_of(default_deny_spec()),
        deny_all: has_catch_all(default_deny_spec()),
        allow_nets: nets_of(default_allow_spec()),
        allow_all: has_catch_all(default_allow_spec()),
        allow_domains: domains_of(default_allow_spec()),
        deny_domains: domains_of(default_deny_spec()),
        bind_port_ranges: port_ranges_spec("3000-9999"@),
        max_connections: 50,
        connection_timeout_secs: 30,
    }
}

impl Default for NetworkPolicy {
    fn default() -> (r: Self)
        ensures
            is_default_network_policy(r),
            model_of_config(r) == default_policy_model(),
    {
        NetworkPolicy {
            deny: default_deny(),
            allow: default_allow(),
            bind_ports: default_bind_ports(),
            max_connections: default_max_connections(),
            max_bandwidth_mbps: default_max_bandwidth_mbps(),
            connection_timeout_secs: default_connection_timeout_secs(),
        }
    }
}

impl Default for PolicyConfig {
    fn default() -> (r: Self)
        ensures
            is_default_network_policy(r.network),
            model_of_config(r.network) == default_policy_model(),
    {
        PolicyConfig { network: NetworkPolicy::default() }
    }
}

// ── the compiled policy ────────────────────────────────────────────────

/// The rules of a policy as mathematical values.
pub struct PolicyModel {
    pub deny_nets: Seq<NetRule>,
    pub deny_all: bool,
    pub allow_nets: Seq<NetRule>,
    pub allow_all: bool,
    pub allow_domains: Seq<DomainRule>,
    pub deny_domains: Seq<DomainRule>,
    pub bind_port_ranges: Seq<(u16, u16)>,
    pub max_connections: usize,
    pub connection_timeout_secs: u64,
}

/// A compiled policy.
#[derive(Debug)]
pub struct Policy {
    deny_nets: Vec<NetRule>,
    deny_all: bool,
    allow_nets: Vec<NetRule>,
    allow_all: bool,
    allow_domains: Vec<DomainPattern>,
    deny_domains: Vec<DomainPattern>,
    bind_port_ranges: Vec<(u16, u16)>,
    pub max_connections: usize,
    pub connection_timeout_secs: u64,
}

pub open spec fn domains_view(v: Seq<DomainPattern>) -> Seq<DomainRule> {
    v.map_values(|d: DomainPattern| d@)
}

impl View for Policy {
    type V = PolicyModel;

    closed spec fn view(&self) -> PolicyModel {
        PolicyModel {
            deny_nets: self.deny_nets@,
            deny_all: self.deny_all,
            allow_nets: self.allow_nets@,
            allow_all: self.allow_all,
            allow_domains: domains_view(self.allow_domains@),
            deny_domains: domains_view(self.deny_domains@),
            bind_port_ranges: self.bind_port_ranges@,
            max_connections: self.max_connections,
            connection_timeout_secs: self.connection_timeout_secs,
        }
    }
}

// ── how a rule list is read ────────────────────────────────────────────

/// What one entry of a rule list is.
pub enum RuleClass {
    /// The catch-all `*`.
    All,
    Net(NetRule),
    Domain(DomainRule),
    /// Neither a network nor a domain: the entry is ignored.
    Ignored,
}

/// An entry, trimmed, is `*`, a network rule, a domain rule, or nothing.
pub open spec fn classify(entry: Seq<char>) -> RuleClass {
    let e = trim_spec(entry);
    if e == seq!['*'] {
        RuleClass::All
    } else {
        match net_rule_spec(e) {
            Some(r) => RuleClass::Net(r),
            None => match domain_rule_spec(e) {
                Some(d) => RuleClass::Domain(d),
                None => RuleClass::Ignored,
            },
        }
    }
}

/// The network rules of a list, in order.
pub open spec fn nets_of(entries: Seq<Seq<char>>) -> Seq<NetRule>
    decreases entries.len(),
{
    if entries.len() == 0 {
        Seq::empty()
    } else {
        let rest = nets_of(entries.drop_last());
        match classify(entries.last()) {
            RuleClass::Net(r) => rest.push(r),
            _ => rest,
        }
    }
}

/// The domain rules of a list, in order.
pub open spec fn domains_of(entries: Seq<Seq<char>>) -> Seq<DomainRule>
    decreases entries.len(),
{
    if entries.len() == 0 {
        Seq::empty()
    } else {
        let rest = domains_of(entries.drop_last());
        match classify(entries.last()) {
            RuleClass::Domain(d) => rest.push(d),
            _ => rest,
        }
    }
}

/// The list holds the catch-all `*`.
pub open spec fn has_catch_all(entries: Seq<Seq<char>>) -> bool {
    exists|i: int| 0 <= i < entries.len() && classify(entries[i]) is All
}

/// The policy a configuration compiles to.
pub open spec fn model_of_config(c: NetworkPolicy) -> PolicyModel {
    let deny = strings_view(c.deny@);
    let allow = strings_view(c.allow@);
    PolicyModel {
        deny_nets: nets_of(deny),
        deny_all: has_catch_all(deny),
        allow_nets: nets_of(allow),
        allow_all: has_catch_all(allow),
        allow_domains: domains_of(allow),
        deny_domains: domains_of(deny),
        bind_port_ranges: port_ranges_spec(c.bind_ports@),
        max_connections: c.max_connections,
        connection_timeout_secs: c.connection_timeout_secs,
    }
}

// ── verdicts ───────────────────────────────────────────────────────────

/// The index of the first network rule that covers `ip` on `port`.
pub open spec fn first_net_match(rules: Seq<NetRule>, ip: IpAddress, port: u16) -> Option<int>
    decreases rules.len(),
{
    if rules.len() == 0 {
        None
    } else {
        match first_net_match(rules.drop_last(), ip, port) {
            Some(i) => Some(i),
            None => if rules.last().spec_matches(ip, port) {
                Some(rules.len() - 1)
            } else {
                None
            },
        }
    }
}

/// Some network rule of the list covers `ip` on `port`.
pub open spec fn any_net_match(rules: Seq<NetRule>, ip: IpAddress, port: u16) -> bool {
    exists|i: int| 0 <= i < rules.len() && rules[i].spec_matches(ip, port)
}

/// Some domain rule of the list covers `name` on `port`.
pub open spec fn any_domain_match(rules: Seq<DomainRule>, name: Seq<char>, port: u16) -> bool {
    exists|i: int| 0 <= i < rules.len() && domain_rule_matches(rules[i], name, port)
}

/// The allow list has to be consulted: it holds no `*`, or the deny list does.
pub open spec fn restricted(m: PolicyModel) -> bool {
    m.deny_all || !m.allow_all
}

/// The refusal for a target that no allow rule covers.
pub open spec fn reject_text(m: PolicyModel, addr: Seq<char>, port: u16) -> Seq<char> {
    let head = if m.deny_all {
        "address blocked by policy (deny-all): "@
    } else {
        "address not in allow list: "@
    };
    head + addr + seq![':'] + decimal_spec(port as nat)
}

/// The refusal for an address inside a denied network.
pub open spec fn blocked_net_text(rule: NetRule) -> Seq<char> {
    "private IP range blocked: "@ + network_text(rule.net)
}

/// The CIDR deny rules decide about `ip`.
pub open spec fn deny_net_verdict(m: PolicyModel, ip: IpAddress, port: u16) -> Result<(), Seq<char>> {
    match first_net_match(m.deny_nets, ip, port) {
        Some(i) => Err(blocked_net_text(m.deny_nets[i])),
        None => Ok(()),
    }
}

/// The verdict on a literal IP target.
pub open spec fn ip_verdict(m: PolicyModel, ip: IpAddress, port: u16) -> Result<(), Seq<char>> {
    match deny_net_verdict(m, ip, port) {
        Err(e) => Err(e),
        Ok(()) => if restricted(m) && !any_net_match(m.allow_nets, ip, port) {
            Err(reject_text(m, address_text(ip), port))
        } else {
            Ok(())
        },
    }
}

/// The verdict on a hostname target, by the domain rules.
pub open spec fn domain_verdict(m: PolicyModel, name: Seq<char>, port: u16) -> Result<(), Seq<char>> {
    if any_domain_match(m.deny_domains, name, port) {
        Err("domain blocked by policy: "@ + name)
    } else if restricted(m) && !any_domain_match(m.allow_domains, name, port) {
        Err(reject_text(m, name, port))
    } else {
        Ok(())
    }
}

/// The verdict on a target as the caller spelled it: a literal IP by the
/// CIDR rules, anything else by the domain rules.
pub open spec fn connect_verdict(m: PolicyModel, addr: Seq<char>, port: u16) -> Result<(), Seq<char>> {
    match ip_addr_parse(addr) {
        Some(t) => ip_verdict(m, address_of(t), port),
        None => domain_verdict(m, addr, port),
    }
}

/// `port` lies in the inclusive range.
pub open spec fn in_range(range: (u16, u16), port: u16) -> bool {
    range.0 <= port <= range.1
}

/// The verdict on binding a listener to `port`.
pub open spec fn bind_verdict(m: PolicyModel, port: u16) -> Result<(), Seq<char>> {
    if exists|i: int| 0 <= i < m.bind_port_ranges.len() && #[trigger] in_range(m.bind_port_ranges[i], port) {
        Ok(())
    } else {
        Err("port "@ + decimal_spec(port as nat) + " not in allowed bind range"@)
    }
}

/// A verdict as characters.
pub open spec fn verdict_of(r: Result<(), String>) -> Result<(), Seq<char>> {
    match r {
        Ok(()) => Ok(()),
        Err(s) => Err(s@),
    }
}

proof fn lemma_first_net_match_is(rules: Seq<NetRule>, ip: IpAddress, port: u16, i: int)
    requires
        0 <= i < rules.len(),
        rules[i].spec_matches(ip, port),
        forall|j: int| 0 <= j < i ==> !rules[j].spec_matches(ip, port),
    ensures
        first_net_match(rules, ip, port) == Some(i),
    decreases rules.len(),
{
    if i == rules.len() - 1 {
        lemma_first_net_match_none(rules.drop_last(), ip, port);
    } else {
        lemma_first_net_match_is(rules.drop_last(), ip, port, i);
    }
}

proof fn lemma_first_net_match_none(rules: Seq<NetRule>, ip: IpAddress, port: u16)
    requires
        forall|j: int| 0 <= j < rules.len() ==> !rules[j].spec_matches(ip, port),
    ensures
        first_net_match(rules, ip, port) is None,
    decreases rules.len(),
{
    if rules.len() > 0 {
        lemma_first_net_match_none(rules.drop_last(), ip, port);
    }
}

/// The first match, when there is one, is a match, and there is one exactly
/// when some rule covers the address.
pub proof fn lemma_first_net_match(rules: Seq<NetRule>, ip: IpAddress, port: u16)
    ensures
        first_net_match(rules, ip, port) is Some <==> any_net_match(rules, ip, port),
        first_net_match(rules, ip, port) matches Some(i) ==> 0 <= i < rules.len()
            && rules[i].spec_matches(ip, port),
    decreases rules.len(),
{
    if rules.len() > 0 {
        lemma_first_net_match(rules.drop_last(), ip, port);
        if any_net_match(rules, ip, port) && first_net_match(rules.drop_last(), ip, port) is None {
            let k = choose|k: int| 0 <= k < rules.len() && rules[k].spec_matches(ip, port);
            if k < rules.len() - 1 {
                assert(rules.drop_last()[k] == rules[k]);
                assert(any_net_match(rules.drop_last(), ip, port));
            }
        }
        match first_net_match(rules.drop_last(), ip, port) {
            Some(i) => {
                assert(rules.drop_last()[i] == rules[i]);
            },
            None => {},
        }
    }
}

fn error_text(head: &str, tail: &str) -> (r: String)
    ensures
        r@ == head@ + tail@,
{
    let mut s = String::from_str(head);
    s.append(tail);
    s
}

impl Policy {
    /// Compiles a `[network]` table into a policy.
    pub fn new(config: &NetworkPolicy) -> (r: Self)
        ensures
            r@ == model_of_config(*config),
    {
        let (deny_nets, deny_domains, deny_all) = parse_rules(&config.deny);
        let (allow_nets, allow_domains, allow_all) = parse_rules(&config.allow);
        let r = Policy {
            deny_nets,
            deny_all,
            allow_nets,
            allow_all,
            allow_domains,
            deny_domains,
            bind_port_ranges: parse_port_ranges(config.bind_ports.as_str()),
            max_connections: config.max_connections,
            connection_timeout_secs: config.connection_timeout_secs,
        };
        assert(r@ == model_of_config(*config));
        r
    }

    /// The connection limit per session.
    pub fn max_connections(&self) -> (r: usize)
        ensures
            r == self@.max_connections,
    {
        self.max_connections
    }

    /// The timeout for outbound TCP connects, in seconds.
    pub fn connection_timeout_secs(&self) -> (r: u64)
        ensures
            r == self@.connection_timeout_secs,
    {
        self.connection_timeout_secs
    }

    /// Check a target as the caller spelled it.
    ///
    /// A literal IP is matched against the CIDR rules. A hostname is matched
    /// against the domain rules only: the addresses it resolves to are not
    /// known yet, so [`Policy::check_resolved`] has to be called for each of
    /// them before connecting.
    pub fn check_connect(&self, addr: &str, port: u16) -> (r: Result<(), String>)
        ensures
            verdict_of(r) == connect_verdict(self@, addr@, port),
    {
        match parse_ip_address(addr) {
            Some(ip) => self.check_ip(&ip, port),
            None => self.check_domain(addr, port),
        }
    }

    /// Check an address a hostname resolved to.
    ///
    /// Only the CIDR deny rules apply here; the domain rules were already
    /// decided against the name in [`Policy::check_connect`]. A hostname that
    /// clears the domain rules still has to clear the deny list address by
    /// address, which is what stops `localhost` from reaching a blocked
    /// `127.0.0.1`.
    pub fn check_resolved(&self, ip: &IpAddress, port: u16) -> (r: Result<(), String>)
        ensures
            verdict_of(r) == deny_net_verdict(self@, *ip, port),
    {
        self.check_deny_nets(ip, port)
    }

    fn check_deny_nets(&self, ip: &IpAddress, port: u16) -> (r: Result<(), String>)
        ensures
            verdict_of(r) == deny_net_verdict(self@, *ip, port),
    {
        let mut i: usize = 0;
        while i < self.deny_nets.len()
            invariant
                i <= self.deny_nets.len(),
                forall|j: int| 0 <= j < i ==> !self.deny_nets@[j].spec_matches(*ip, port),
            decreases self.deny_nets.len() - i,
        {
            let rule = &self.deny_nets[i];
            if rule.matches(ip, port) {
                proof {
                    lemma_first_net_match_is(self.deny_nets@, *ip, port, i as int);
                }
                let text = network_to_string(&rule.net);
                return Err(error_text("private IP range blocked: ", text.as_str()));
            }
            i = i + 1;
        }
        proof {
            lemma_first_net_match_none(self.deny_nets@, *ip, port);
        }
        Ok(())
    }

    fn check_ip(&self, ip: &IpAddress, port: u16) -> (r: Result<(), String>)
        ensures
            verdict_of(r) == ip_verdict(self@, *ip, port),
    {
        let denied = self.check_deny_nets(ip, port);
        if denied.is_err() {
            return denied;
        }
        if self.deny_all || !self.allow_all {
            let mut allowed = false;
            let mut i: usize = 0;
            while i < self.allow_nets.len()
                invariant
                    i <= self.allow_nets.len(),
                    allowed == exists|j: int|
                        0 <= j < i && self.allow_nets@[j].spec_matches(*ip, port),
                decreases self.allow_nets.len() - i,
            {
                if self.allow_nets[i].matches(ip, port) {
                    allowed = true;
                }
                i = i + 1;
            }
            if !allowed {
                let text = address_to_string(ip);
                return Err(self.reject(text.as_str(), port));
            }
        }
        Ok(())
    }

    fn check_domain(&self, addr: &str, port: u16) -> (r: Result<(), String>)
        ensures
            verdict_of(r) == domain_verdict(self@, addr@, port),
    {
        let mut i: usize = 0;
        while i < self.deny_domains.len()
            invariant
                i <= self.deny_domains.len(),
                forall|j: int|
                    0 <= j < i ==> !domain_rule_matches(self.deny_domains@[j]@, addr@, port),
            decreases self.deny_domains.len() - i,
        {
            if self.deny_domains[i].matches(addr, port) {
                assert(domains_view(self.deny_domains@)[i as int] == self.deny_domains@[i as int]@);
                return Err(error_text("domain blocked by policy: ", addr));
            }
            i = i + 1;
        }
        assert(!any_domain_match(self@.deny_domains, addr@, port)) by {
            assert forall|j: int| 0 <= j < self@.deny_domains.len() implies !domain_rule_matches(
                self@.deny_domains[j],
                addr@,
                port,
            ) by {
                assert(domains_view(self.deny_domains@)[j] == self.deny_domains@[j]@);
            }
        }
        if self.deny_all || !self.allow_all {
            let mut allowed = false;
            let mut i: usize = 0;
            while i < self.allow_domains.len()
                invariant
                    i <= self.allow_domains.len(),
                    allowed == exists|j: int|
                        0 <= j < i && domain_rule_matches(self.allow_domains@[j]@, addr@, port),
                decreases self.allow_domains.len() - i,
            {
                if self.allow_domains[i].matches(addr, port) {
                    allowed = true;
                }
                i = i + 1;
            }
            proof {
                if allowed {
                    let j = choose|j: int|
                        0 <= j < i && domain_rule_matches(self.allow_domains@[j]@, addr@, port);
                    assert(domains_view(self.allow_domains@)[j] == self.allow_domains@[j]@);
                }
                if any_domain_match(self@.allow_domains, addr@, port) {
                    let j = choose|j: int|
                        0 <= j < self@.allow_domains.len() && domain_rule_matches(
                            self@.allow_domains[j],
                            addr@,
                            port,
                        );
                    assert(domains_view(self.allow_domains@)[j] == self.allow_domains@[j]@);
                }
            }
            if !allowed {
                return Err(self.reject(addr, port));
            }
        }
        Ok(())
    }

    fn reject(&self, addr: &str, port: u16) -> (r: String)
        ensures
            r@ == reject_text(self@, addr@, port),
    {
        let mut s = if self.deny_all {
            String::from_str("address blocked by policy (deny-all): ")
        } else {
            String::from_str("address not in allow list: ")
        };
        s.append(addr);
        s.append(":");
        let p = decimal_string(port as u64);
        s.append(p.as_str());
        proof {
            reveal_strlit(":");
        }
        assert(s@ =~= reject_text(self@, addr@, port));
        s
    }

    /// Check binding a listener to `port` against the bind-port ranges.
    pub fn check_bind(&self, port: u16) -> (r: Result<(), String>)
        ensures
            verdict_of(r) == bind_verdict(self@, port),
    {
        let mut i: usize = 0;
        while i < self.bind_port_ranges.len()
            invariant
                i <= self.bind_port_ranges.len(),
                forall|j: int| 0 <= j < i ==> !#[trigger] in_range(self.bind_port_ranges@[j], port),
            decreases self.bind_port_ranges.len() - i,
        {
            let (lo, hi) = self.bind_port_ranges[i];
            if lo <= port && port <= hi {
                assert(in_range(self@.bind_port_ranges[i as int], port));
                return Ok(());
            }
            i = i + 1;
        }
        let mut s = String::from_str("port ");
        let p = decimal_string(port as u64);
        s.append(p.as_str());
        s.append(" not in allowed bind range");
        Err(s)
    }

    /// A policy that allows every target and every bind port (0 included).
    pub fn allow_all() -> (r: Self)
        ensures
            r@ == allow_all_model(),
    {
        let mut ranges: Vec<(u16, u16)> = Vec::new();
        ranges.push((0, 65535));
        let r = Policy {
            deny_nets: Vec::new(),
            deny_all: false,
            allow_nets: Vec::new(),
            allow_all: true,
            allow_domains: Vec::new(),
            deny_domains: Vec::new(),
            bind_port_ranges: ranges,
            max_connections: usize::MAX,
            connection_timeout_secs: 30,
        };
        assert(r@ =~= allow_all_model()) by {
            assert(domains_view(r.allow_domains@) =~= Seq::<DomainRule>::empty());
            assert(domains_view(r.deny_domains@) =~= Seq::<DomainRule>::empty());
        }
        r
    }
}

/// The rules of [`Policy::allow_all`].
pub open spec fn allow_all_model() -> PolicyModel {
    PolicyModel {
        deny_nets: Seq::empty(),
        deny_all: false,
        allow_nets: Seq::empty(),
        allow_all: true,
        allow_domains: Seq::empty(),
        deny_domains: Seq::empty(),
        bind_port_ranges: seq![(0u16, 65535u16)],
        max_connections: usize::MAX,
        connection_timeout_secs: 30,
    }
}

/// Sort one rule list into networks, domains, and the catch-all `*`.
fn parse_rules(entries: &Vec<String>) -> (r: (Vec<NetRule>, Vec<DomainPattern>, bool))
    ensures
        r.0@ == nets_of(strings_view(entries@)),
        domains_view(r.1@) == domains_of(strings_view(entries@)),
        r.2 == has_catch_all(strings_view(entries@)),
{
    let ghost ev = strings_view(entries@);
    let mut nets: Vec<NetRule> = Vec::new();
    let mut domains: Vec<DomainPattern> = Vec::new();
    let mut all = false;
    let mut i: usize = 0;
    while i < entries.len()
        invariant
            i <= entries.len(),
            ev == strings_view(entries@),
            nets@ == nets_of(ev.take(i as int)),
            domains_view(domains@) == domains_of(ev.take(i as int)),
            all == exists|j: int| 0 <= j < i && classify(ev[j]) is All,
        decreases entries.len() - i,
    {
        let entry = trim(entries[i].as_str());
        let ec = chars_of(entry);
        let ghost prev_domains = domains@;
        assert(ev.take(i + 1).drop_last() =~= ev.take(i as int));
        assert(ev.take(i + 1).last() == ev[i as int]);
        assert(ev[i as int] == entries@[i as int]@);
        if ec.len() == 1 && ec[0] == '*' {
            assert(entry@ =~= seq!['*']);
            all = true;
        } else {
            assert(entry@ != seq!['*']) by {
                if entry@ == seq!['*'] {
                    assert(entry@.len() == 1 && entry@[0] == '*');
                }
            }
            if let Some(rule) = NetRule::parse(entry) {
                nets.push(rule);
            } else if let Some(dp) = DomainPattern::parse(entry) {
                domains.push(dp);
                assert(domains_view(domains@) =~= domains_view(prev_domains).push(dp@));
            }
        }
        i = i + 1;
    }
    assert(ev.take(entries.len() as int) =~= ev);
    (nets, domains, all)
}

// ── laws ───────────────────────────────────────────────────────────────

/// Deny wins: a literal IP inside a denied network, or a hostname that a
/// deny domain rule covers, is refused whatever the allow list holds.
pub proof fn law_deny_wins(m: PolicyModel, addr: Seq<char>, port: u16)
    ensures
        (ip_addr_parse(addr) matches Some(t) && any_net_match(m.deny_nets, address_of(t), port))
            ==> connect_verdict(m, addr, port) is Err,
        (ip_addr_parse(addr) is None && any_domain_match(m.deny_domains, addr, port))
            ==> connect_verdict(m, addr, port) is Err,
{
    match ip_addr_parse(addr) {
        Some(t) => lemma_first_net_match(m.deny_nets, address_of(t), port),
        None => {},
    }
}

/// A resolved address is refused exactly when a CIDR deny rule covers it.
pub proof fn law_resolved_check_is_the_deny_list(m: PolicyModel, ip: IpAddress, port: u16)
    ensures
        deny_net_verdict(m, ip, port) is Err <==> any_net_match(m.deny_nets, ip, port),
{
    lemma_first_net_match(m.deny_nets, ip, port);
}

/// The allow-all policy accepts every target, every resolved address and
/// every bind port.
pub proof fn law_allow_all_policy(addr: Seq<char>, ip: IpAddress, port: u16)
    ensures
        connect_verdict(allow_all_model(), addr, port) == Ok::<(), Seq<char>>(()),
        deny_net_verdict(allow_all_model(), ip, port) == Ok::<(), Seq<char>>(()),
        bind_verdict(allow_all_model(), port) == Ok::<(), Seq<char>>(()),
{
    let m = allow_all_model();
    assert(!any_domain_match(m.deny_domains, addr, port));
    assert(in_range(m.bind_port_ranges[0], port));
}

/// Names are compared normalized: two hostnames that are the same name once
/// case-folded and stripped of a trailing dot are both accepted or both
/// refused.
pub proof fn law_names_are_normalized(m: PolicyModel, a: Seq<char>, b: Seq<char>, port: u16)
    requires
        ip_addr_parse(a) is None,
        ip_addr_parse(b) is None,
        normalize_spec(a) == normalize_spec(b),
    ensures
        connect_verdict(m, a, port) is Ok <==> connect_verdict(m, b, port) is Ok,
{
    assert forall|r: DomainRule| domain_rule_matches(r, a, port) == domain_rule_matches(
        r,
        b,
        port,
    ) by {}
    assert(any_domain_match(m.deny_domains, a, port) == any_domain_match(m.deny_domains, b, port))
        by {
        if any_domain_match(m.deny_domains, a, port) {
            let i = choose|i: int|
                0 <= i < m.deny_domains.len() && domain_rule_matches(m.deny_domains[i], a, port);
            assert(domain_rule_matches(m.deny_domains[i], b, port));
        }
        if any_domain_match(m.deny_domains, b, port) {
            let i = choose|i: int|
                0 <= i < m.deny_domains.len() && domain_rule_matches(m.deny_domains[i], b, port);
            assert(domain_rule_matches(m.deny_domains[i], a, port));
        }
    }
    assert(any_domain_match(m.allow_domains, a, port) == any_domain_match(
        m.allow_domains,
        b,
        port,
    )) by {
        if any_domain_match(m.allow_domains, a, port) {
            let i = choose|i: int|
                0 <= i < m.allow_domains.len() && domain_rule_matches(m.allow_domains[i], a, port);
            assert(domain_rule_matches(m.allow_domains[i], b, port));
        }
        if any_domain_match(m.allow_domains, b, port) {
            let i = choose|i: int|
                0 <= i < m.allow_domains.len() && domain_rule_matches(m.allow_domains[i], b, port);
            assert(domain_rule_matches(m.allow_domains[i], a, port));
        }
    }
}

/// ASCII letter case does not matter: two ASCII hostnames that agree once
/// their letters are lower-cased and a single trailing dot is dropped are
/// both accepted or both refused.
pub proof fn law_ascii_case_is_ignored(m: PolicyModel, a: Seq<char>, b: Seq<char>, port: u16)
    requires
        is_ascii_text(a),
        is_ascii_text(b),
        ip_addr_parse(a) is None,
        ip_addr_parse(b) is None,
        ascii_lowercase(strip_dot_spec(a)) == ascii_lowercase(strip_dot_spec(b)),
    ensures
        connect_verdict(m, a, port) is Ok <==> connect_verdict(m, b, port) is Ok,
{
    lemma_strip_dot_ascii(a);
    lemma_strip_dot_ascii(b);
    law_names_are_normalized(m, a, b, port);
}

/// `evil.com`, `EVIL.com` and `evil.com.` are one name: an ASCII hostname
/// without a trailing dot gets the same answer as its upper-case spelling
/// and as its spelling with a trailing dot.
pub proof fn law_one_name_three_spellings(m: PolicyModel, d: Seq<char>, port: u16)
    requires
        is_ascii_text(d),
        !(d.len() > 0 && d.last() == '.'),
        ip_addr_parse(d) is None,
        ip_addr_parse(ascii_uppercase(d)) is None,
        ip_addr_parse(d + seq!['.']) is None,
    ensures
        connect_verdict(m, d, port) is Ok <==> connect_verdict(m, ascii_uppercase(d), port) is Ok,
        connect_verdict(m, d, port) is Ok <==> connect_verdict(m, d + seq!['.'], port) is Ok,
{
    let u = ascii_uppercase(d);
    let dotted = d + seq!['.'];
    assert(is_ascii_text(u)) by {
        assert forall|i: int| 0 <= i < u.len() implies (#[trigger] u[i] as u32) < 128 by {
            assert((d[i] as u32) < 128);
        }
    }
    assert(is_ascii_text(dotted)) by {
        assert forall|i: int| 0 <= i < dotted.len() implies (#[trigger] dotted[i] as u32) < 128 by {
            if i < d.len() {
                assert(dotted[i] == d[i]);
                assert((d[i] as u32) < 128);
            }
        }
    }
    assert(strip_dot_spec(u) == u) by {
        if u.len() > 0 {
            assert(u.last() == ascii_upper_char(d.last()));
        }
    }
    assert(strip_dot_spec(d) == d);
    assert(strip_dot_spec(dotted) =~= d);
    assert(ascii_lowercase(u) =~= ascii_lowercase(d)) by {
        assert forall|i: int| 0 <= i < d.len() implies ascii_lowercase(u)[i] == ascii_lowercase(d)[i] by {
            let c = d[i];
            assert(ascii_lower_char(ascii_upper_char(c)) == ascii_lower_char(c));
        }
    }
    law_ascii_case_is_ignored(m, d, u, port);
    law_ascii_case_is_ignored(m, d, dotted, port);
}

proof fn lemma_strip_dot_ascii(s: Seq<char>)
    requires
        is_ascii_text(s),
    ensures
        is_ascii_text(strip_dot_spec(s)),
        crate::policy::rules::normalize_spec(s) == ascii_lowercase(strip_dot_spec(s)),
{
    let t = strip_dot_spec(s);
    assert forall|i: int| 0 <= i < t.len() implies (#[trigger] t[i] as u32) < 128 by {
        assert(t[i] == s[i]);
    }
}

proof fn lemma_lists_concat(a: Seq<Seq<char>>, b: Seq<Seq<char>>)
    ensures
        nets_of(a + b) == nets_of(a) + nets_of(b),
        domains_of(a + b) == domains_of(a) + domains_of(b),
        has_catch_all(a + b) == (has_catch_all(a) || has_catch_all(b)),
    decreases b.len(),
{
    if b.len() == 0 {
        assert(a + b =~= a);
        assert(nets_of(a) + nets_of(b) =~= nets_of(a));
        assert(domains_of(a) + domains_of(b) =~= domains_of(a));
    } else {
        let b0 = b.drop_last();
        lemma_lists_concat(a, b0);
        assert((a + b).drop_last() =~= a + b0);
        assert((a + b).last() == b.last());
        match classify(b.last()) {
            RuleClass::Net(r) => {
                assert(nets_of(a) + nets_of(b0).push(r) =~= (nets_of(a) + nets_of(b0)).push(r));
            },
            RuleClass::Domain(d) => {
                assert(domains_of(a) + domains_of(b0).push(d) =~= (domains_of(a) + domains_of(
                    b0,
                )).push(d));
            },
            _ => {},
        }
        let ab = a + b;
        if has_catch_all(ab) {
            let i = choose|i: int| 0 <= i < ab.len() && classify(ab[i]) is All;
            if i < a.len() {
                assert(ab[i] == a[i]);
            } else {
                assert(ab[i] == b[i - a.len()]);
            }
        }
        if has_catch_all(a) {
            let i = choose|i: int| 0 <= i < a.len() && classify(a[i]) is All;
            assert(ab[i] == a[i]);
        }
        if has_catch_all(b) {
            let i = choose|i: int| 0 <= i < b.len() && classify(b[i]) is All;
            assert(ab[a.len() + i] == b[i]);
        }
    }
}

/// Adding deny entries never admits more: a target the policy with the
/// longer deny list accepts, the policy without the extra entries accepts
/// too.
pub proof fn law_more_deny_entries_admit_no_more(
    c1: NetworkPolicy,
    c2: NetworkPolicy,
    extra: Seq<Seq<char>>,
    addr: Seq<char>,
    port: u16,
)
    requires
        strings_view(c2.deny@) == strings_view(c1.deny@) + extra,
        strings_view(c2.allow@) == strings_view(c1.allow@),
    ensures
        connect_verdict(model_of_config(c2), addr, port) is Ok ==> connect_verdict(
            model_of_config(c1),
            addr,
            port,
        ) is Ok,
{
    let m1 = model_of_config(c1);
    let m2 = model_of_config(c2);
    lemma_lists_concat(strings_view(c1.deny@), extra);
    if connect_verdict(m2, addr, port) is Ok {
        match ip_addr_parse(addr) {
            Some(t) => {
                let ip = address_of(t);
                lemma_first_net_match(m1.deny_nets, ip, port);
                lemma_first_net_match(m2.deny_nets, ip, port);
                if any_net_match(m1.deny_nets, ip, port) {
                    let i = choose|i: int|
                        0 <= i < m1.deny_nets.len() && m1.deny_nets[i].spec_matches(ip, port);
                    assert(m2.deny_nets[i] == m1.deny_nets[i]);
                }
            },
            None => {
                if any_domain_match(m1.deny_domains, addr, port) {
                    let i = choose|i: int|
                        0 <= i < m1.deny_domains.len() && domain_rule_matches(
                            m1.deny_domains[i],
                            addr,
                            port,
                        );
                    assert(m2.deny_domains[i] == m1.deny_domains[i]);
                }
            },
        }
    }
}

/// Adding allow entries never refuses more: a target the policy accepts,
/// the policy with the longer allow list accepts too.
pub proof fn law_more_allow_entries_refuse_no_more(
    c1: NetworkPolicy,
    c2: NetworkPolicy,
    extra: Seq<Seq<char>>,
    addr: Seq<char>,
    port: u16,
)
    requires
        strings_view(c2.allow@) == strings_view(c1.allow@) + extra,
        strings_view(c2.deny@) == strings_view(c1.deny@),
    ensures
        connect_verdict(model_of_config(c1), addr, port) is Ok ==> connect_verdict(
            model_of_config(c2),
            addr,
            port,
        ) is Ok,
{
    let m1 = model_of_config(c1);
    let m2 = model_of_config(c2);
    lemma_lists_concat(strings_view(c1.allow@), extra);
    if connect_verdict(m1, addr, port) is Ok {
        match ip_addr_parse(addr) {
            Some(t) => {
                let ip = address_of(t);
                if restricted(m2) && any_net_match(m1.allow_nets, ip, port) {
                    let i = choose|i: int|
                        0 <= i < m1.allow_nets.len() && m1.allow_nets[i].spec_matches(ip, port);
                    assert(m2.allow_nets[i] == m1.allow_nets[i]);
                }
            },
            None => {
                if restricted(m2) && any_domain_match(m1.allow_domains, addr, port) {
                    let i = choose|i: int|
                        0 <= i < m1.allow_domains.len() && domain_rule_matches(
                            m1.allow_domains[i],
                            addr,
                            port,
                        );
                    assert(m2.allow_domains[i] == m1.allow_domains[i]);
                }
            },
        }
    }
}

/// A domain rule covers its host and every subdomain of it, on the ports
/// it names: a name that normalizes to the rule's host, or to a label, a
/// dot and the rule's host, is covered.
pub proof fn law_domain_rule_covers_subdomains(
    rule: DomainRule,
    d: Seq<char>,
    label: Seq<char>,
    port: u16,
)
    requires
        crate::policy::rules::port_matches(rule.port, port),
        normalize_spec(d) == rule.host || normalize_spec(d) == label + seq!['.'] + rule.host,
    ensures
        domain_rule_matches(rule, d, port),
{
    let nd = normalize_spec(d);
    if nd != rule.host {
        let suffix = seq!['.'] + rule.host;
        assert(nd =~= label + suffix);
        assert(nd.subrange(nd.len() - suffix.len(), nd.len() as int) =~= suffix);
    }
}

/// A domain rule with a port covers no other port, whatever the name.
pub proof fn law_domain_rule_port(rule: DomainRule, d: Seq<char>, port: u16)
    ensures
        (rule.port matches Some(p) && p != port) ==> !domain_rule_matches(rule, d, port),
        rule.port is None ==> (domain_rule_matches(rule, d, port) <==> domain_rule_matches(
            rule,
            d,
            0,
        )),
{
}

/// No name that merely ends in the same characters as a domain rule's host
/// is covered by it: `evil.com` does not cover `notevil.com`.
pub proof fn law_lookalike_suffix_does_not_match(rule: DomainRule, d: Seq<char>, port: u16)
    requires
        normalize_spec(d) != rule.host,
        normalize_spec(d).len() > rule.host.len(),
        normalize_spec(d)[normalize_spec(d).len() - rule.host.len() - 1] != '.',
    ensures
        !domain_rule_matches(rule, d, port),
{
    let nd = normalize_spec(d);
    let suffix = seq!['.'] + rule.host;
    if ends_with(nd, suffix) {
        let k = nd.len() - suffix.len();
        assert(nd.subrange(k, nd.len() as int)[0] == nd[k]);
        assert(suffix[0] == '.');
    }
}

/// A rule with no port covers every port; a rule with a port covers only
/// that port.
pub proof fn law_rule_ports(rule: NetRule, ip: IpAddress, port: u16)
    ensures
        rule.port is None ==> (rule.spec_matches(ip, port) <==> rule.net.spec_contains(ip)),
        rule.port matches Some(p) ==> (rule.spec_matches(ip, port) <==> p == port
            && rule.net.spec_contains(ip)),
{
}

/// Whether an allow rule of the list covers the target: a literal address by
/// a network rule, a hostname by a domain rule.
pub open spec fn allow_rule_covers(allow: Seq<Seq<char>>, addr: Seq<char>, port: u16) -> bool {
    match ip_addr_parse(addr) {
        Some(t) => exists|i: int|
            0 <= i < nets_of(allow).len() && #[trigger] nets_of(allow)[i].spec_matches(
                address_of(t),
                port,
            ),
        None => exists|i: int|
            0 <= i < domains_of(allow).len() && domain_rule_matches(
                #[trigger] domains_of(allow)[i],
                addr,
                port,
            ),
    }
}

/// Whether a deny rule of the list (other than `*`) covers the target.
pub open spec fn deny_rule_covers(deny: Seq<Seq<char>>, addr: Seq<char>, port: u16) -> bool {
    match ip_addr_parse(addr) {
        Some(t) => exists|i: int|
            0 <= i < nets_of(deny).len() && #[trigger] nets_of(deny)[i].spec_matches(
                address_of(t),
                port,
            ),
        None => exists|i: int|
            0 <= i < domains_of(deny).len() && domain_rule_matches(
                #[trigger] domains_of(deny)[i],
                addr,
                port,
            ),
    }
}

/// When the deny list holds the catch-all `*`, or the allow list does not,
/// the allow list decides: a target is accepted only if a concrete allow
/// rule covers it (a `*` in the allow list then admits nothing by itself),
/// and a target a concrete allow rule covers is accepted unless a deny rule
/// covers it.
pub proof fn law_allow_list_decides_when_consulted(c: NetworkPolicy, addr: Seq<char>, port: u16)
    requires
        has_catch_all(strings_view(c.deny@)) || !has_catch_all(strings_view(c.allow@)),
    ensures
        connect_verdict(model_of_config(c), addr, port) is Ok ==> allow_rule_covers(
            strings_view(c.allow@),
            addr,
            port,
        ),
        (allow_rule_covers(strings_view(c.allow@), addr, port) && !deny_rule_covers(
            strings_view(c.deny@),
            addr,
            port,
        )) ==> connect_verdict(model_of_config(c), addr, port) is Ok,
{
    let m = model_of_config(c);
    match ip_addr_parse(addr) {
        Some(t) => {
            lemma_first_net_match(m.deny_nets, address_of(t), port);
        },
        None => {},
    }
}

/// When the allow list holds `*` and the deny list does not, a target is
/// accepted exactly when no deny rule covers it.
pub proof fn law_open_allow_admits_all_but_the_denied(c: NetworkPolicy, addr: Seq<char>, port: u16)
    requires
        has_catch_all(strings_view(c.allow@)),
        !has_catch_all(strings_view(c.deny@)),
    ensures
        connect_verdict(model_of_config(c), addr, port) is Ok <==> !deny_rule_covers(
            strings_view(c.deny@),
            addr,
            port,
        ),
{
    let m = model_of_config(c);
    match ip_addr_parse(addr) {
        Some(t) => {
            lemma_first_net_match(m.deny_nets, address_of(t), port);
        },
        None => {},
    }
}

/// A bind is allowed exactly when the port lies in one of the ranges the
/// `bind_ports` setting lists, whichever of them it is; otherwise the
/// refusal names the port.
pub proof fn law_bind_port_in_any_range(c: NetworkPolicy, port: u16)
    ensures
        bind_verdict(model_of_config(c), port) is Ok <==> exists|i: int|
            #![trigger port_ranges_spec(c.bind_ports@)[i]]
            0 <= i < port_ranges_spec(c.bind_ports@).len() && port_ranges_spec(c.bind_ports@)[i].0
                <= port && port <= port_ranges_spec(c.bind_ports@)[i].1,
        bind_verdict(model_of_config(c), port) is Err ==> bind_verdict(model_of_config(c), port)
            == Err::<(), Seq<char>>(
            "port "@ + decimal_spec(port as nat) + " not in allowed bind range"@,
        ),
{
    let r = port_ranges_spec(c.bind_ports@);
    let m = model_of_config(c);
    assert(m.bind_port_ranges == r);
    if bind_verdict(m, port) is Ok {
        let i = choose|i: int| 0 <= i < m.bind_port_ranges.len() && #[trigger] in_range(
            m.bind_port_ranges[i],
            port,
        );
        assert(r[i].0 <= port && port <= r[i].1);
    }
    if exists|i: int| #![trigger r[i]] 0 <= i < r.len() && r[i].0 <= port && port <= r[i].1 {
        let i = choose|i: int| #![trigger r[i]] 0 <= i < r.len() && r[i].0 <= port && port <= r[i].1;
        assert(in_range(m.bind_port_ranges[i], port));
    }
}

} // verus!
