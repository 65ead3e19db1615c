//! Parsing and matching of single allow/deny rules.
//!
//! A rule is a CIDR or bare IP (a [`NetRule`]) or a domain (a
//! [`DomainPattern`]), either one optionally qualified by a port.
use vstd::prelude::*;
use crate::ip::{
    IpAddress, IpNetwork, address_of, ip_addr_parse, ipnet_parse, network_of, parse_ip_address,
    parse_ip_network,
};
use crate::text::{
    chars_of, ends_with, ends_with_exec, first_index, last_index, lemma_first_index_bounds,
    lemma_first_index_is, lemma_first_index_none, lemma_last_index_bounds, lemma_last_index_none, lowercase_text, is_ascii_text, parse_u16,
    parse_u16_spec, push_str, rfind, split_spec, starts_with, string_of_range, strip_dot,
    strip_dot_spec, to_lowercase, trim, trim_spec,
};

verus! {

// ── models ─────────────────────────────────────────────────────────────

/// A rule's port: with no port the rule covers every port.
pub open spec fn port_matches(rule_port: Option<u16>, port: u16) -> bool {
    match rule_port {
        Some(p) => p == port,
        None => true,
    }
}

/// A CIDR or bare-IP rule, optionally qualified by a port.
///
/// A rule with no port applies to every port: `10.0.0.0/8` covers the whole
/// range, `10.0.0.0/8:22` only covers SSH to it.
#[derive(Clone, Copy, Debug)]
pub struct NetRule {
    pub net: IpNetwork,
    pub port: Option<u16>,
}

impl NetRule {
    pub open spec fn spec_matches(self, ip: IpAddress, port: u16) -> bool {
        self.net.spec_contains(ip) && port_matches(self.port, port)
    }

    /// The rule covers `ip` on `port`.
    pub fn matches(&self, ip: &IpAddress, port: u16) -> (r: bool)
        ensures
            r == self.spec_matches(*ip, port),
    {
        let inside = self.net.contains(ip);
        match self.port {
            Some(p) => inside && p == port,
            None => inside,
        }
    }
}

/// A domain rule as a mathematical value: a normalized host and a port.
pub struct DomainRule {
    pub host: Seq<char>,
    pub port: Option<u16>,
}

/// A domain rule, optionally qualified by a port.
///
/// A rule covers the domain itself and every subdomain of it, so
/// `example.com` and `*.example.com` mean the same thing. Names are compared
/// case-folded and with any single trailing dot removed, so the fully
/// qualified `example.com.` cannot slip past a rule written as `example.com`.
#[derive(Clone, Debug)]
pub struct DomainPattern {
    pub host: String,
    pub port: Option<u16>,
}

impl View for DomainPattern {
    type V = DomainRule;

    open spec fn view(&self) -> DomainRule {
        DomainRule { host: self.host@, port: self.port }
    }
}

/// A name case-folded and without its single trailing dot.
pub open spec fn normalize_spec(s: Seq<char>) -> Seq<char> {
    lowercase_text(strip_dot_spec(s))
}

/// The rule covers the name `d` on `port`: the normalized name is the rule's
/// host or a subdomain of it.
pub open spec fn domain_rule_matches(rule: DomainRule, d: Seq<char>, port: u16) -> bool {
    &&& port_matches(rule.port, port)
    &&& (normalize_spec(d) == rule.host || ends_with(normalize_spec(d), seq!['.'] + rule.host))
}

// ── specifications of the parsers ──────────────────────────────────────

/// Where `split_host_port` cuts a rule into host and port.
pub open spec fn split_host_port_spec(s: Seq<char>) -> (Seq<char>, Option<u16>) {
    if s.len() > 0 && s[0] == '[' && first_index(s.drop_first(), ']') is Some {
        let rest = s.drop_first();
        let end = first_index(rest, ']').unwrap();
        let after = rest.subrange(end + 1, rest.len() as int);
        let port = if after.len() > 0 && after[0] == ':' {
            parse_u16_spec(after.drop_first())
        } else {
            None
        };
        (rest.subrange(0, end), port)
    } else {
        match last_index(s, ':') {
            Some(idx) => {
                if first_index(s.subrange(0, idx), ':') is Some {
                    (s, None)
                } else {
                    match parse_u16_spec(s.subrange(idx + 1, s.len() as int)) {
                        Some(p) => (s.subrange(0, idx), Some(p)),
                        None => (s, None),
                    }
                }
            },
            None => (s, None),
        }
    }
}

/// A CIDR, or a bare IP address as a single-host network.
pub open spec fn parse_net_spec(s: Seq<char>) -> Option<IpNetwork> {
    match ipnet_parse(s) {
        Some(t) => Some(network_of(t)),
        None => match ip_addr_parse(s) {
            Some(t) => Some(IpNetwork::single_host(address_of(t))),
            None => None,
        },
    }
}

/// What a rule string means as a network rule.
pub open spec fn net_rule_spec(s: Seq<char>) -> Option<NetRule> {
    match parse_net_spec(s) {
        Some(n) => Some(NetRule { net: n, port: None }),
        None => {
            let (host, port) = split_host_port_spec(s);
            match port {
                None => None,
                Some(_) => match parse_net_spec(host) {
                    Some(n) => Some(NetRule { net: n, port }),
                    None => None,
                },
            }
        },
    }
}

/// `s` without a leading `*.`.
pub open spec fn strip_wildcard_spec(s: Seq<char>) -> Seq<char> {
    if starts_with(s, seq!['*', '.']) {
        s.subrange(2, s.len() as int)
    } else {
        s
    }
}

/// What a rule string means as a domain rule.
pub open spec fn domain_rule_spec(s: Seq<char>) -> Option<DomainRule> {
    let (host, port) = split_host_port_spec(s);
    let h = normalize_spec(strip_wildcard_spec(host));
    if h.len() == 0 || h == seq!['*'] {
        None
    } else {
        Some(DomainRule { host: h, port })
    }
}

/// The port set of one comma-separated part: `lo-hi` or a single port.
pub open spec fn range_of_part(part: Seq<char>) -> Option<(u16, u16)> {
    let p = trim_spec(part);
    match first_index(p, '-') {
        Some(i) => match (
            parse_u16_spec(trim_spec(p.subrange(0, i))),
            parse_u16_spec(trim_spec(p.subrange(i + 1, p.len() as int))),
        ) {
            (Some(lo), Some(hi)) => Some((lo, hi)),
            _ => None,
        },
        None => match parse_u16_spec(p) {
            Some(x) => Some((x, x)),
            None => None,
        },
    }
}

/// The ranges of the parts that parse, in order.
pub open spec fn ranges_of_parts(parts: Seq<Seq<char>>) -> Seq<(u16, u16)>
    decreases parts.len(),
{
    if parts.len() == 0 {
        Seq::empty()
    } else {
        let rest = ranges_of_parts(parts.drop_last());
        match range_of_part(parts.last()) {
            Some(r) => rest.push(r),
            None => rest,
        }
    }
}

/// The bind-port ranges a `bind_ports` setting such as `3000-9999` or
/// `3000,8080` describes.
pub open spec fn port_ranges_spec(s: Seq<char>) -> Seq<(u16, u16)> {
    ranges_of_parts(split_spec(s, ','))
}

// ── executable parsers ─────────────────────────────────────────────────

/// Index of the first `c` in `cs[from..to]`.
fn find_in(cs: &Vec<char>, c: char, from: usize, to: usize) -> (r: Option<usize>)
    requires
        from <= to <= cs.len(),
    ensures
        r matches Some(i) ==> from <= i < to && first_index(cs@.subrange(from as int, to as int), c)
            == Some(i - from),
        r is None ==> first_index(cs@.subrange(from as int, to as int), c) is None,
{
    let ghost t = cs@.subrange(from as int, to as int);
    let mut i = from;
    while i < to
        invariant
            from <= i <= to <= cs.len(),
            t == cs@.subrange(from as int, to as int),
            forall|j: int| 0 <= j < i - from ==> t[j] != c,
        decreases to - i,
    {
        if cs[i] == c {
            proof {
                lemma_first_index_is(t, c, i - from);
            }
            return Some(i);
        }
        i = i + 1;
    }
    proof {
        lemma_first_index_none(t, c);
    }
    None
}

/// Parses the characters `cs[from..to]` as a port.
fn parse_port_range(cs: &Vec<char>, from: usize, to: usize) -> (r: Option<u16>)
    requires
        from <= to <= cs.len(),
    ensures
        r == parse_u16_spec(cs@.subrange(from as int, to as int)),
{
    let s = string_of_range(cs, from, to);
    parse_u16(s.as_str())
}

/// Splits a rule into host and optional port: `[::1]:443`, `host:443`, or
/// no port. A string with more than one colon outside brackets is a bare
/// IPv6 literal and carries no port.
pub fn split_host_port(s: &str) -> (r: (String, Option<u16>))
    ensures
        r.0@ == split_host_port_spec(s@).0,
        r.1 == split_host_port_spec(s@).1,
{
    let cs = chars_of(s);
    let n = cs.len();
    proof {
        lemma_first_index_bounds(s@.drop_first(), ']');
    }
    if n > 0 && cs[0] == '[' {
        assert(cs@.subrange(1, n as int) =~= s@.drop_first());
        if let Some(e) = find_in(&cs, ']', 1, n) {
            let ghost rest = s@.drop_first();
            assert(rest.subrange(0, e - 1) =~= cs@.subrange(1, e as int));
            assert(rest.subrange(e - 1 + 1, rest.len() as int) =~= cs@.subrange(
                e + 1,
                n as int,
            ));
            let port = if e + 1 < n && cs[e + 1] == ':' {
                assert(cs@.subrange(e + 1, n as int).drop_first() =~= cs@.subrange(
                    e + 2,
                    n as int,
                ));
                parse_port_range(&cs, e + 2, n)
            } else {
                None
            };
            return (string_of_range(&cs, 1, e), port);
        }
    }
    match rfind(&cs, ':') {
        Some(idx) => {
            proof {
                lemma_last_index_bounds(s@, ':');
            }
            if find_in(&cs, ':', 0, idx).is_some() {
                (s.to_owned(), None)
            } else {
                match parse_port_range(&cs, idx + 1, n) {
                    Some(port) => (string_of_range(&cs, 0, idx), Some(port)),
                    None => (s.to_owned(), None),
                }
            }
        },
        None => (s.to_owned(), None),
    }
}

/// Parses a CIDR, or a bare IP address as a single-host network.
pub fn parse_net(s: &str) -> (r: Option<IpNetwork>)
    ensures
        r == parse_net_spec(s@),
        r matches Some(n) ==> n.wf(),
{
    match parse_ip_network(s) {
        Some(n) => Some(n),
        None => match parse_ip_address(s) {
            Some(a) => Some(IpNetwork::from_address(a)),
            None => None,
        },
    }
}

impl NetRule {
    /// Parses a CIDR or bare-IP rule, optionally followed by a port. The
    /// whole string is tried first, so an unbracketed IPv6 CIDR still parses.
    pub fn parse(s: &str) -> (r: Option<NetRule>)
        ensures
            r == net_rule_spec(s@),
    {
        if let Some(net) = parse_net(s) {
            return Some(NetRule { net, port: None });
        }
        let (host, port) = split_host_port(s);
        if port.is_none() {
            return None;
        }
        match parse_net(host.as_str()) {
            Some(net) => Some(NetRule { net, port }),
            None => None,
        }
    }
}

/// Case-fold a name and drop the single trailing dot of the FQDN form.
pub fn normalize_domain(s: &str) -> (r: String)
    ensures
        r@ == normalize_spec(s@),
{
    to_lowercase(strip_dot(s))
}

impl DomainPattern {
    /// Parses a domain rule; `*.example.com` and `example.com` give the same
    /// pattern, and an empty name or a bare `*` is no domain rule.
    pub fn parse(s: &str) -> (r: Option<DomainPattern>)
        ensures
            r matches Some(p) ==> domain_rule_spec(s@) == Some(p@),
            r is None ==> domain_rule_spec(s@) is None,
    {
        let (host, port) = split_host_port(s);
        let hc = chars_of(host.as_str());
        let bare = if hc.len() >= 2 && hc[0] == '*' && hc[1] == '.' {
            assert(starts_with(host@, seq!['*', '.'])) by {
                assert(host@.subrange(0, 2) =~= seq!['*', '.']);
            }
            string_of_range(&hc, 2, hc.len())
        } else {
            assert(!starts_with(host@, seq!['*', '.'])) by {
                if starts_with(host@, seq!['*', '.']) {
                    assert(host@.subrange(0, 2)[0] == '*');
                    assert(host@.subrange(0, 2)[1] == '.');
                }
            }
            host
        };
        let h = normalize_domain(bare.as_str());
        let hv = chars_of(h.as_str());
        if hv.len() == 0 {
            return None;
        }
        if hv.len() == 1 && hv[0] == '*' {
            assert(h@ =~= seq!['*']);
            return None;
        }
        assert(h@ != seq!['*']) by {
            if h@ == seq!['*'] {
                assert(h@.len() == 1 && h@[0] == '*');
            }
        }
        Some(DomainPattern { host: h, port })
    }

    /// The rule covers `domain` on `port`.
    pub fn matches(&self, domain: &str, port: u16) -> (r: bool)
        ensures
            r == domain_rule_matches(self@, domain@, port),
    {
        if let Some(p) = self.port {
            if p != port {
                return false;
            }
        }
        let d = normalize_domain(domain);
        if d == self.host {
            return true;
        }
        let dc = chars_of(d.as_str());
        let mut suffix: Vec<char> = Vec::new();
        suffix.push('.');
        push_str(&mut suffix, self.host.as_str());
        assert(suffix@ =~= seq!['.'] + self.host@);
        ends_with_exec(&dc, &suffix)
    }
}

/// Parses one comma-separated part of a `bind_ports` setting.
fn range_of(cs: &Vec<char>, from: usize, to: usize) -> (r: Option<(u16, u16)>)
    requires
        from <= to <= cs.len(),
    ensures
        r == range_of_part(cs@.subrange(from as int, to as int)),
{
    let raw = string_of_range(cs, from, to);
    let part = trim(raw.as_str());
    let pc = chars_of(part);
    let n = pc.len();
    match find_in(&pc, '-', 0, n) {
        Some(idx) => {
            assert(pc@.subrange(0, n as int) =~= pc@);
            let lo_s = string_of_range(&pc, 0, idx);
            let lo = parse_u16(trim(lo_s.as_str()));
            let hi_s = string_of_range(&pc, idx + 1, n);
            let hi = parse_u16(trim(hi_s.as_str()));
            match (lo, hi) {
                (Some(lo), Some(hi)) => Some((lo, hi)),
                _ => None,
            }
        },
        None => {
            assert(pc@.subrange(0, n as int) =~= pc@);
            match parse_u16(part) {
                Some(x) => Some((x, x)),
                None => None,
            }
        },
    }
}

proof fn lemma_ranges_push(parts: Seq<Seq<char>>, part: Seq<char>)
    ensures
        ranges_of_parts(parts.push(part)) == match range_of_part(part) {
            Some(r) => ranges_of_parts(parts).push(r),
            None => ranges_of_parts(parts),
        },
{
    assert(parts.push(part).drop_last() =~= parts);
}

/// Parses a `bind_ports` setting: comma-separated ports and `lo-hi` ranges;
/// parts that do not parse are skipped.
pub fn parse_port_ranges(s: &str) -> (r: Vec<(u16, u16)>)
    ensures
        r@ == port_ranges_spec(s@),
{
    let cs = chars_of(s);
    let n = cs.len();
    let mut out: Vec<(u16, u16)> = Vec::new();
    let mut start: usize = 0;
    let ghost mut done: Seq<Seq<char>> = Seq::empty();
    assert(cs@.subrange(0, n as int) =~= s@);
    loop
        invariant
            start <= n == cs.len(),
            cs@ == s@,
            split_spec(s@, ',') == done + split_spec(cs@.subrange(start as int, n as int), ','),
            out@ == ranges_of_parts(done),
        decreases n - start,
    {
        let ghost t = cs@.subrange(start as int, n as int);
        match find_in(&cs, ',', start, n) {
            Some(i) => {
                let r = range_of(&cs, start, i);
                proof {
                    let j = i - start;
                    assert(t.subrange(0, j) =~= cs@.subrange(start as int, i as int));
                    assert(t.subrange(j + 1, t.len() as int) =~= cs@.subrange(i + 1, n as int));
                    assert(split_spec(t, ',') == seq![t.subrange(0, j)] + split_spec(
                        t.subrange(j + 1, t.len() as int),
                        ',',
                    ));
                    lemma_ranges_push(done, cs@.subrange(start as int, i as int));
                    assert(done + split_spec(t, ',') =~= done.push(
                        cs@.subrange(start as int, i as int),
                    ) + split_spec(cs@.subrange(i + 1, n as int), ','));
                    done = done.push(cs@.subrange(start as int, i as int));
                }
                if let Some(range) = r {
                    out.push(range);
                }
                start = i + 1;
            },
            None => {
                let r = range_of(&cs, start, n);
                proof {
                    assert(split_spec(t, ',') == seq![t]);
                    lemma_ranges_push(done, t);
                    assert(done + split_spec(t, ',') =~= done.push(t));
                    done = done.push(t);
                }
                if let Some(range) = r {
                    out.push(range);
                }
                return out;
            },
        }
    }
}

// ── laws ───────────────────────────────────────────────────────────────

proof fn lemma_last_index_after_prefix(pre: Seq<char>, s: Seq<char>, c: char)
    requires
        forall|i: int| 0 <= i < pre.len() ==> pre[i] != c,
    ensures
        last_index(pre + s, c) == match last_index(s, c) {
            Some(i) => Some(i + pre.len()),
            None => None::<int>,
        },
    decreases s.len(),
{
    if s.len() == 0 {
        assert(pre + s =~= pre);
        lemma_last_index_none(pre, c);
    } else {
        assert((pre + s).drop_last() =~= pre + s.drop_last());
        assert((pre + s).last() == s.last());
        lemma_last_index_after_prefix(pre, s.drop_last(), c);
    }
}

proof fn lemma_first_index_after_prefix(pre: Seq<char>, x: Seq<char>, c: char)
    requires
        forall|i: int| 0 <= i < pre.len() ==> pre[i] != c,
    ensures
        first_index(pre + x, c) is Some <==> first_index(x, c) is Some,
    decreases pre.len(),
{
    if pre.len() == 0 {
        assert(pre + x =~= x);
    } else {
        assert((pre + x).drop_first() =~= pre.drop_first() + x);
        assert((pre + x)[0] == pre[0]);
        lemma_first_index_after_prefix(pre.drop_first(), x, c);
    }
}

/// The ranges of a list of parts are the ranges of each part in turn: every
/// part counts, in order, and one that does not parse adds nothing.
pub proof fn law_every_part_counts(a: Seq<Seq<char>>, b: Seq<Seq<char>>)
    ensures
        ranges_of_parts(a + b) == ranges_of_parts(a) + ranges_of_parts(b),
    decreases b.len(),
{
    if b.len() == 0 {
        assert(a + b =~= a);
        assert(ranges_of_parts(a) + ranges_of_parts(b) =~= ranges_of_parts(a));
    } else {
        let b0 = b.drop_last();
        law_every_part_counts(a, b0);
        assert((a + b).drop_last() =~= a + b0);
        assert((a + b).last() == b.last());
        match range_of_part(b.last()) {
            Some(r) => {
                assert(ranges_of_parts(a) + ranges_of_parts(b0).push(r) =~= (ranges_of_parts(a)
                    + ranges_of_parts(b0)).push(r));
            },
            None => {},
        }
    }
}

/// A bare `*` and the empty text are no domain rule.
pub proof fn law_star_and_empty_are_no_domain_rule()
    ensures
        domain_rule_spec(seq!['*']) is None,
        domain_rule_spec(Seq::<char>::empty()) is None,
{
    let star = seq!['*'];
    let e = Seq::<char>::empty();
    assert(last_index(star.drop_last(), ':') is None);
    assert(last_index(star, ':') is None);
    assert(split_host_port_spec(star) == (star, None::<u16>));
    assert(!starts_with(star, seq!['*', '.']));
    assert(strip_dot_spec(star) == star);
    assert(is_ascii_text(star));
    assert(crate::text::ascii_lowercase(star) =~= star);
    assert(normalize_spec(star) == star);
    assert(split_host_port_spec(e) == (e, None::<u16>));
    assert(is_ascii_text(e));
    assert(crate::text::ascii_lowercase(e) =~= e);
}

/// `*.example.com` and `example.com` are the same rule: a leading `*.`
/// changes nothing about what a domain rule covers.
pub proof fn law_wildcard_prefix_is_redundant(s: Seq<char>)
    requires
        !starts_with(s, seq!['*', '.']),
        s.len() == 0 || s[0] != '[',
    ensures
        domain_rule_spec(seq!['*', '.'] + s) == domain_rule_spec(s),
{
    let pre = seq!['*', '.'];
    let t = pre + s;
    assert(t[0] == '*');
    assert(starts_with(t, pre)) by {
        assert(t.subrange(0, 2) =~= pre);
    }
    assert(t.subrange(2, t.len() as int) =~= s);
    lemma_last_index_after_prefix(pre, s, ':');
    lemma_last_index_bounds(s, ':');
    match last_index(s, ':') {
        None => {},
        Some(idx) => {
            assert(t.subrange(0, idx + 2) =~= pre + s.subrange(0, idx));
            lemma_first_index_after_prefix(pre, s.subrange(0, idx), ':');
            assert(t.subrange(idx + 2 + 1, t.len() as int) =~= s.subrange(idx + 1, s.len() as int));
            let h = s.subrange(0, idx);
            assert((pre + h).subrange(0, 2) =~= pre);
            assert((pre + h).subrange(2, (pre + h).len() as int) =~= h);
            if starts_with(h, pre) {
                assert(s.subrange(0, 2) =~= h.subrange(0, 2));
            }
        },
    }
}

} // verus!
