//! The server's configuration: which policy, which bandwidth limit, which
//! pool settings and which address a server gets, from a builder or
//! directly. Accepting connections is the embedding program's part.
use vstd::prelude::*;
use crate::ip::{SocketAddress, parse_socket_address, socket_addr_parse, socket_address_of};
use crate::policy::{
    NetworkPolicy, Policy, PolicyConfig, PolicyModel, allow_all_model, default_policy_model,
    model_of_config,
};
use crate::rate_limit::{BucketModel, RateLimiter, limiter_for};
use crate::text::{decimal_spec, decimal_chars, chars_of, push_all, string_from_chars};

verus! {

/// Idle-connection pool settings: seconds a connection may stay idle, and
/// connections kept per target.
pub struct PoolSettings {
    pub idle_secs: u64,
    pub per_key: usize,
}

/// What a server is made of.
pub struct ServerModel {
    pub policy: PolicyModel,
    pub limiter: Option<BucketModel>,
    pub pool: Option<(u64, usize)>,
    pub addr: SocketAddress,
}

/// A configured server.
pub struct Server {
    policy: Policy,
    rate_limiter: RateLimiter,
    pool: Option<PoolSettings>,
    addr: SocketAddress,
}

impl View for Server {
    type V = ServerModel;

    closed spec fn view(&self) -> ServerModel {
        ServerModel {
            policy: self.policy@,
            limiter: self.rate_limiter@,
            pool: match self.pool {
                Some(p) => Some((p.idle_secs, p.per_key)),
                None => None,
            },
            addr: self.addr,
        }
    }
}

/// What a builder has been told: a policy (compiled, with its bandwidth
/// limit), a policy file's contents (likewise), whether to run without a
/// policy, the address, an explicit bandwidth limit and pool settings.
pub struct BuilderModel {
    pub policy: Option<(PolicyModel, u32)>,
    pub policy_config: Option<(PolicyModel, u32)>,
    pub no_policy: bool,
    pub host: Seq<char>,
    pub port: u16,
    pub max_bandwidth_mbps: Option<u32>,
    pub pool_idle_secs: Option<u64>,
    pub pool_per_key: Option<usize>,
}

/// Builder for [`Server`].
pub struct ServerBuilder {
    policy: Option<NetworkPolicy>,
    policy_config: Option<PolicyConfig>,
    no_policy: bool,
    host: String,
    port: u16,
    max_bandwidth_mbps: Option<u32>,
    pool_idle_secs: Option<u64>,
    pool_per_key: Option<usize>,
}

/// A network table as the builder keeps it: compiled, with its bandwidth.
pub open spec fn compiled(p: NetworkPolicy) -> (PolicyModel, u32) {
    (model_of_config(p), p.max_bandwidth_mbps)
}

impl View for ServerBuilder {
    type V = BuilderModel;

    closed spec fn view(&self) -> BuilderModel {
        BuilderModel {
            policy: match self.policy {
                Some(p) => Some(compiled(p)),
                None => None,
            },
            policy_config: match self.policy_config {
                Some(c) => Some(compiled(c.network)),
                None => None,
            },
            no_policy: self.no_policy,
            host: self.host@,
            port: self.port,
            max_bandwidth_mbps: self.max_bandwidth_mbps,
            pool_idle_secs: self.pool_idle_secs,
            pool_per_key: self.pool_per_key,
        }
    }
}

/// A fresh builder: no policy chosen, `0.0.0.0:9000`, no bandwidth limit of
/// its own, no pool.
pub open spec fn fresh_builder() -> BuilderModel {
    BuilderModel {
        policy: None,
        policy_config: None,
        no_policy: false,
        host: "0.0.0.0"@,
        port: 9000,
        max_bandwidth_mbps: None,
        pool_idle_secs: None,
        pool_per_key: None,
    }
}

/// The policy a build uses: none when told to run without one, else the
/// policy given, else the policy file's, else the default one.
pub open spec fn chosen_policy(b: BuilderModel) -> Option<(PolicyModel, u32)> {
    if b.no_policy {
        None
    } else if b.policy is Some {
        b.policy
    } else if b.policy_config is Some {
        b.policy_config
    } else {
        Some((default_policy_model(), 10u32))
    }
}

/// The bandwidth limit a build uses: the one given to the builder, else the
/// chosen policy's, else none (0).
pub open spec fn chosen_bandwidth(b: BuilderModel) -> u32 {
    match b.max_bandwidth_mbps {
        Some(bw) => bw,
        None => match chosen_policy(b) {
            Some((_, bw)) => bw,
            None => 0,
        },
    }
}

/// The text a build parses as the socket address: `host:port`.
pub open spec fn address_text_of(b: BuilderModel) -> Seq<char> {
    b.host + seq![':'] + decimal_spec(b.port as nat)
}

/// The server a build makes from what the builder was told, at `addr`.
pub open spec fn built_server(b: BuilderModel, addr: SocketAddress) -> ServerModel {
    ServerModel {
        policy: match chosen_policy(b) {
            Some((m, _)) => m,
            None => allow_all_model(),
        },
        limiter: limiter_for(chosen_bandwidth(b)),
        pool: match (b.pool_idle_secs, b.pool_per_key) {
            (Some(idle), Some(per_key)) => Some((idle, per_key)),
            _ => None,
        },
        addr,
    }
}

/// Why a build failed.
#[derive(Debug)]
pub enum BuildError {
    /// `host:port` is not a socket address; the text is kept.
    InvalidAddress { text: String },
}

impl ServerBuilder {
    /// A builder for `0.0.0.0:9000` with the default policy.
    pub fn new() -> (r: Self)
        ensures
            r@ == fresh_builder(),
    {
        ServerBuilder {
            policy: None,
            policy_config: None,
            no_policy: false,
            host: String::from_str("0.0.0.0"),
            port: 9000,
            max_bandwidth_mbps: None,
            pool_idle_secs: None,
            pool_per_key: None,
        }
    }

    /// Sets the host to listen on.
    pub fn host(self, host: &str) -> (r: Self)
        ensures
            r@ == (BuilderModel { host: host@, ..self@ }),
    {
        let mut b = self;
        b.host = String::from_str(host);
        b
    }

    /// Sets the port to listen on.
    pub fn port(self, port: u16) -> (r: Self)
        ensures
            r@ == (BuilderModel { port, ..self@ }),
    {
        let mut b = self;
        b.port = port;
        b
    }

    /// Sets host and port together.
    pub fn addr(self, host: &str, port: u16) -> (r: Self)
        ensures
            r@ == (BuilderModel { host: host@, port, ..self@ }),
    {
        let mut b = self;
        b.host = String::from_str(host);
        b.port = port;
        b
    }

    /// Uses this network policy.
    pub fn policy(self, policy: NetworkPolicy) -> (r: Self)
        ensures
            r@ == (BuilderModel { policy: Some(compiled(policy)), ..self@ }),
    {
        let mut b = self;
        b.policy = Some(policy);
        b
    }

    /// Uses the network table of this policy file.
    pub fn policy_config(self, config: PolicyConfig) -> (r: Self)
        ensures
            r@ == (BuilderModel { policy_config: Some(compiled(config.network)), ..self@ }),
    {
        let mut b = self;
        b.policy_config = Some(config);
        b
    }

    /// Runs without a policy: everything is allowed.
    pub fn no_policy(self) -> (r: Self)
        ensures
            r@ == (BuilderModel { no_policy: true, ..self@ }),
    {
        let mut b = self;
        b.no_policy = true;
        b
    }

    /// Limits bandwidth to `mbps` megabits per second (0: unlimited),
    /// whatever the policy says.
    pub fn max_bandwidth_mbps(self, mbps: u32) -> (r: Self)
        ensures
            r@ == (BuilderModel { max_bandwidth_mbps: Some(mbps), ..self@ }),
    {
        let mut b = self;
        b.max_bandwidth_mbps = Some(mbps);
        b
    }

    /// Keeps idle connections for `idle_secs` seconds, at most `per_key` per
    /// target.
    pub fn pool(self, idle_secs: u64, per_key: usize) -> (r: Self)
        ensures
            r@ == (BuilderModel {
                pool_idle_secs: Some(idle_secs),
                pool_per_key: Some(per_key),
                ..self@
            }),
    {
        let mut b = self;
        b.pool_idle_secs = Some(idle_secs);
        b.pool_per_key = Some(per_key);
        b
    }

    fn address_text(&self) -> (r: String)
        ensures
            r@ == address_text_of(self@),
    {
        let mut out = chars_of(self.host.as_str());
        out.push(':');
        let digits = decimal_chars(self.port as u64);
        push_all(&mut out, &digits);
        string_from_chars(out.as_slice())
    }

    /// Makes the server. It fails exactly when `host:port` does not parse
    /// as a socket address.
    pub fn build(self) -> (r: Result<Server, BuildError>)
        ensures
            match r {
                Ok(s) => socket_addr_parse(address_text_of(self@)) matches Some(t) && s@
                    == built_server(self@, socket_address_of(t)),
                Err(BuildError::InvalidAddress { text }) => text@ == address_text_of(self@)
                    && socket_addr_parse(address_text_of(self@)) is None,
            },
    {
        let text = self.address_text();
        let addr = match parse_socket_address(text.as_str()) {
            Some(a) => a,
            None => {
                return Err(BuildError::InvalidAddress { text });
            },
        };
        let ghost model = self@;
        let ServerBuilder {
            policy,
            policy_config,
            no_policy,
            host: _,
            port: _,
            max_bandwidth_mbps,
            pool_idle_secs,
            pool_per_key,
        } = self;
        let net_policy: Option<NetworkPolicy> = if no_policy {
            None
        } else if let Some(p) = policy {
            Some(p)
        } else if let Some(c) = policy_config {
            Some(c.network)
        } else {
            Some(NetworkPolicy::default())
        };
        assert(match net_policy {
            Some(np) => chosen_policy(model) == Some(compiled(np)),
            None => chosen_policy(model) is None,
        });
        let policy = match &net_policy {
            Some(np) => Policy::new(np),
            None => Policy::allow_all(),
        };
        let bandwidth: u32 = match max_bandwidth_mbps {
            Some(bw) => bw,
            None => match &net_policy {
                Some(np) => np.max_bandwidth_mbps,
                None => 0,
            },
        };
        let rate_limiter = RateLimiter::new(bandwidth);
        let pool = match (pool_idle_secs, pool_per_key) {
            (Some(idle), Some(per_key)) => Some(PoolSettings { idle_secs: idle, per_key }),
            _ => None,
        };
        Ok(Server { policy, rate_limiter, pool, addr })
    }
}

impl Default for ServerBuilder {
    fn default() -> (r: Self)
        ensures
            r@ == fresh_builder(),
    {
        Self::new()
    }
}

impl Server {
    /// A builder for a server.
    pub fn builder() -> (r: ServerBuilder)
        ensures
            r@ == fresh_builder(),
    {
        ServerBuilder::new()
    }

    /// A server at `addr` with this policy and its bandwidth limit, no pool.
    pub fn new(policy: NetworkPolicy, addr: SocketAddress) -> (r: Self)
        ensures
            r@ == (ServerModel {
                policy: model_of_config(policy),
                limiter: limiter_for(policy.max_bandwidth_mbps),
                pool: None,
                addr,
            }),
    {
        let bw = policy.max_bandwidth_mbps;
        Server {
            policy: Policy::new(&policy),
            rate_limiter: RateLimiter::new(bw),
            pool: None,
            addr,
        }
    }

    /// A server at `addr` with the network table of this policy file.
    pub fn from_config(config: PolicyConfig, addr: SocketAddress) -> (r: Self)
        ensures
            r@ == (ServerModel {
                policy: model_of_config(config.network),
                limiter: limiter_for(config.network.max_bandwidth_mbps),
                pool: None,
                addr,
            }),
    {
        Self::new(config.network, addr)
    }

    /// A server at `addr` that allows everything, unthrottled.
    pub fn allow_all(addr: SocketAddress) -> (r: Self)
        ensures
            r@ == (ServerModel { policy: allow_all_model(), limiter: None, pool: None, addr }),
    {
        Server {
            policy: Policy::allow_all(),
            rate_limiter: RateLimiter::unlimited(),
            pool: None,
            addr,
        }
    }

    /// The policy sessions are held to.
    pub fn policy(&self) -> (r: &Policy)
        ensures
            r@ == self@.policy,
    {
        &self.policy
    }

    /// The address to listen on.
    pub fn addr(&self) -> (r: SocketAddress)
        ensures
            r == self@.addr,
    {
        self.addr
    }

    /// The pool settings, if connections are pooled.
    pub fn pool_settings(&self) -> (r: Option<(u64, usize)>)
        ensures
            r == self@.pool,
    {
        match &self.pool {
            Some(p) => Some((p.idle_secs, p.per_key)),
            None => None,
        }
    }

    /// Hands the parts over to whoever runs the server: the policy, the
    /// rate limiter, the pool settings and the address.
    pub fn into_parts(self) -> (r: (Policy, RateLimiter, Option<(u64, usize)>, SocketAddress))
        ensures
            r.0@ == self@.policy,
            r.1@ == self@.limiter,
            r.2 == self@.pool,
            r.3 == self@.addr,
    {
        let pool = self.pool_settings();
        let Server { policy, rate_limiter, pool: _, addr } = self;
        (policy, rate_limiter, pool, addr)
    }
}

} // verus!
