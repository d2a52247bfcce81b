//! Benchmark configuration: the configured streams and how they become
//! endpoints to measure.

use vstd::prelude::*;
use crate::text::text_lt;

verus! {

/// The stream protocols an endpoint can speak.
#[derive(Debug, Clone, Copy, PartialEq, Eq, Structural)]
pub enum Protocol {
    Yellowstone,
    JitoShredstream,
    ApertureTxstream,
    ShrederBinary,
    Arpc,
    Jetstream,
}

impl Protocol {
    /// The protocol's configuration name.
    pub open spec fn name(self) -> Seq<char> {
        match self {
            Protocol::Yellowstone => "yellowstone"@,
            Protocol::JitoShredstream => "jito-shredstream"@,
            Protocol::ApertureTxstream => "aperture-txstream"@,
            Protocol::ShrederBinary => "shreder-binary"@,
            Protocol::Arpc => "arpc"@,
            Protocol::Jetstream => "jetstream"@,
        }
    }

    /// The protocol's human-readable name.
    pub open spec fn title(self) -> Seq<char> {
        match self {
            Protocol::Yellowstone => "Yellowstone"@,
            Protocol::JitoShredstream => "Jito ShredStream"@,
            Protocol::ApertureTxstream => "Aperture txstream"@,
            Protocol::ShrederBinary => "Shreder Binary"@,
            Protocol::Arpc => "aRPC"@,
            Protocol::Jetstream => "Jetstream"@,
        }
    }

    /// The configuration name, e.g. `jito-shredstream`.
    pub fn as_str(self) -> (res: &'static str)
        ensures
            res@ == self.name(),
    {
        match self {
            Protocol::Yellowstone => "yellowstone",
            Protocol::JitoShredstream => "jito-shredstream",
            Protocol::ApertureTxstream => "aperture-txstream",
            Protocol::ShrederBinary => "shreder-binary",
            Protocol::Arpc => "arpc",
            Protocol::Jetstream => "jetstream",
        }
    }

    /// The display name, e.g. `Jito ShredStream`.
    pub fn label(self) -> (res: &'static str)
        ensures
            res@ == self.title(),
    {
        match self {
            Protocol::Yellowstone => "Yellowstone",
            Protocol::JitoShredstream => "Jito ShredStream",
            Protocol::ApertureTxstream => "Aperture txstream",
            Protocol::ShrederBinary => "Shreder Binary",
            Protocol::Arpc => "aRPC",
            Protocol::Jetstream => "Jetstream",
        }
    }
}

/// A resolved stream endpoint to benchmark.
#[derive(Debug, Clone)]
pub struct Endpoint {
    pub alias: String,
    pub protocol: Protocol,
    pub url: String,
    pub token: String,
    pub signatures_only: bool,
    pub include_simulation: bool,
    pub batch_mode: bool,
}

/// The mathematical content of an [`Endpoint`].
pub struct EndpointView {
    pub alias: Seq<char>,
    pub protocol: Protocol,
    pub url: Seq<char>,
    pub token: Seq<char>,
    pub signatures_only: bool,
    pub include_simulation: bool,
    pub batch_mode: bool,
}

impl View for Endpoint {
    type V = EndpointView;

    open spec fn view(&self) -> EndpointView {
        EndpointView {
            alias: self.alias@,
            protocol: self.protocol,
            url: self.url@,
            token: self.token@,
            signatures_only: self.signatures_only,
            include_simulation: self.include_simulation,
            batch_mode: self.batch_mode,
        }
    }
}

/// A span of time: whole seconds plus nanoseconds below one second.
#[derive(Debug, Clone, Copy, PartialEq, Eq, Structural)]
pub struct TimeSpan {
    pub secs: u64,
    pub nanos: u32,
}

/// One configured stream of the generic kind.
#[derive(Debug, Clone)]
pub struct EndpointConfig {
    pub url: String,
    pub x_token: Option<String>,
    pub x_token_env: Option<String>,
}

/// One configured Aperture txstream.
#[derive(Debug, Clone)]
pub struct ApertureEndpointConfig {
    pub url: String,
    pub x_token: Option<String>,
    pub x_token_env: Option<String>,
    pub signatures_only: bool,
    pub include_simulation: bool,
    pub batch_mode: bool,
}

/// The benchmark configuration.  Each protocol section holds its streams
/// keyed by alias, in ascending alias order, as a TOML table is read.
#[derive(Debug)]
pub struct Config {
    pub duration: Option<TimeSpan>,
    pub warmup: Option<TimeSpan>,
    pub no_tx_timeout: TimeSpan,
    pub buffer_size: usize,
    pub account_include: Vec<String>,
    pub yellowstone: Vec<(String, EndpointConfig)>,
    pub jito_shredstream: Vec<(String, EndpointConfig)>,
    pub aperture_txstream: Vec<(String, ApertureEndpointConfig)>,
    pub shreder_binary: Vec<(String, EndpointConfig)>,
    pub arpc: Vec<(String, EndpointConfig)>,
    pub jetstream: Vec<(String, EndpointConfig)>,
}

/// Why a configuration cannot be used.
#[derive(Debug, Clone, PartialEq, Eq)]
pub enum ConfigError {
    /// Fewer than two streams are configured.
    TooFewEndpoints,
    /// A token is to be read from an environment variable that is not set.
    MissingTokenVariable(String),
}

/// The stream-inactivity timeout used when the configuration names none.
pub fn default_no_tx_timeout() -> (res: TimeSpan)
    ensures
        res == (TimeSpan { secs: 30, nanos: 0 }),
{
    TimeSpan { secs: 30, nanos: 0 }
}

/// The gRPC buffer size used when the configuration names none.
pub fn default_buffer_size() -> (res: usize)
    ensures
        res == 4 * 1024 * 1024,
{
    4 * 1024 * 1024
}

/// Aperture streams ask for signatures only unless configured otherwise.
pub fn default_aperture_signatures_only() -> (res: bool)
    ensures
        res,
{
    true
}

/// An endpoint before its token is resolved.
pub struct EndpointPlan {
    pub alias: Seq<char>,
    pub protocol: Protocol,
    pub url: Seq<char>,
    pub x_token: Option<Seq<char>>,
    pub x_token_env: Option<Seq<char>>,
    pub signatures_only: bool,
    pub include_simulation: bool,
    pub batch_mode: bool,
}

/// The value of the first variable named `name` in `env`.
pub open spec fn env_lookup(env: Seq<(String, String)>, name: Seq<char>) -> Option<Seq<char>>
    decreases env.len(),
{
    if env.len() == 0 {
        None
    } else if env[0].0@ == name {
        Some(env[0].1@)
    } else {
        env_lookup(env.drop_first(), name)
    }
}

/// The token a stream authenticates with: the inline token if given, else
/// the named environment variable (an error naming it when unset), else none.
pub open spec fn token_for(
    value: Option<Seq<char>>,
    env_name: Option<Seq<char>>,
    env: Seq<(String, String)>,
) -> Result<Seq<char>, Seq<char>> {
    match value {
        Some(v) => Ok(v),
        None => match env_name {
            None => Ok(Seq::empty()),
            Some(name) => match env_lookup(env, name) {
                Some(v) => Ok(v),
                None => Err(name),
            },
        },
    }
}

pub open spec fn opt_view(o: Option<String>) -> Option<Seq<char>> {
    match o {
        Some(s) => Some(s@),
        None => None,
    }
}

/// The plan for a stream of a generic section.
pub open spec fn generic_plan(entry: (String, EndpointConfig), protocol: Protocol) -> EndpointPlan {
    EndpointPlan {
        alias: entry.0@,
        protocol,
        url: entry.1.url@,
        x_token: opt_view(entry.1.x_token),
        x_token_env: opt_view(entry.1.x_token_env),
        signatures_only: true,
        include_simulation: false,
        batch_mode: false,
    }
}

/// The plan for an Aperture stream.
pub open spec fn aperture_plan(entry: (String, ApertureEndpointConfig)) -> EndpointPlan {
    EndpointPlan {
        alias: entry.0@,
        protocol: Protocol::ApertureTxstream,
        url: entry.1.url@,
        x_token: opt_view(entry.1.x_token),
        x_token_env: opt_view(entry.1.x_token_env),
        signatures_only: entry.1.signatures_only,
        include_simulation: entry.1.include_simulation,
        batch_mode: entry.1.batch_mode,
    }
}

pub open spec fn section_plans(section: Seq<(String, EndpointConfig)>, protocol: Protocol) -> Seq<
    EndpointPlan,
> {
    section.map_values(|e: (String, EndpointConfig)| generic_plan(e, protocol))
}

pub open spec fn aperture_plans(section: Seq<(String, ApertureEndpointConfig)>) -> Seq<EndpointPlan> {
    section.map_values(|e: (String, ApertureEndpointConfig)| aperture_plan(e))
}

/// The endpoint a plan becomes once its token is resolved.
pub open spec fn resolve_plan(plan: EndpointPlan, env: Seq<(String, String)>) -> Result<
    EndpointView,
    Seq<char>,
> {
    match token_for(plan.x_token, plan.x_token_env, env) {
        Ok(token) => Ok(
            EndpointView {
                alias: plan.alias,
                protocol: plan.protocol,
                url: plan.url,
                token,
                signatures_only: plan.signatures_only,
                include_simulation: plan.include_simulation,
                batch_mode: plan.batch_mode,
            },
        ),
        Err(name) => Err(name),
    }
}

/// All plans resolved in order; the first failure (the variable it names)
/// if any fails.
pub open spec fn resolve_plans(plans: Seq<EndpointPlan>, env: Seq<(String, String)>) -> Result<
    Seq<EndpointView>,
    Seq<char>,
>
    decreases plans.len(),
{
    if plans.len() == 0 {
        Ok(Seq::empty())
    } else {
        match resolve_plans(plans.drop_last(), env) {
            Err(name) => Err(name),
            Ok(done) => match resolve_plan(plans.last(), env) {
                Err(name) => Err(name),
                Ok(e) => Ok(done.push(e)),
            },
        }
    }
}

/// Resolving two runs of plans one after the other.
pub proof fn lemma_resolve_plans_append(a: Seq<EndpointPlan>, b: Seq<EndpointPlan>, env: Seq<(String, String)>)
    ensures
        resolve_plans(a + b, env) == match resolve_plans(a, env) {
            Err(name) => Err(name),
            Ok(x) => match resolve_plans(b, env) {
                Err(name) => Err(name),
                Ok(y) => Ok(x + y),
            },
        },
    decreases b.len(),
{
    if b.len() == 0 {
        assert(a + b == a);
        if let Ok(x) = resolve_plans(a, env) {
            assert(x + Seq::<EndpointView>::empty() == x);
        }
    } else {
        lemma_resolve_plans_append(a, b.drop_last(), env);
        assert((a + b).drop_last() == a + b.drop_last());
        assert((a + b).last() == b.last());
        if let Ok(x) = resolve_plans(a, env) {
            if let Ok(y) = resolve_plans(b.drop_last(), env) {
                if let Ok(e) = resolve_plan(b.last(), env) {
                    assert(x + y.push(e) == (x + y).push(e));
                }
            }
        }
    }
}

/// A table's aliases strictly ascend, as the keys of an ordered map do:
/// each alias occurs once, in the order `String` compares them.
pub open spec fn aliases_ascending<E>(section: Seq<(String, E)>) -> bool {
    forall|i: int, j: int| 0 <= i < j < section.len() ==> text_lt(section[i].0@, section[j].0@)
}

impl Config {
    /// Each protocol table lists its streams by ascending alias, once each.
    pub open spec fn wf(&self) -> bool {
        &&& aliases_ascending(self.yellowstone@)
        &&& aliases_ascending(self.jito_shredstream@)
        &&& aliases_ascending(self.aperture_txstream@)
        &&& aliases_ascending(self.shreder_binary@)
        &&& aliases_ascending(self.arpc@)
        &&& aliases_ascending(self.jetstream@)
    }

    /// Every configured stream, before token resolution, in the order the
    /// benchmark lists them.
    pub open spec fn plans(&self) -> Seq<EndpointPlan> {
        section_plans(self.yellowstone@, Protocol::Yellowstone) + section_plans(
            self.jito_shredstream@,
            Protocol::JitoShredstream,
        ) + aperture_plans(self.aperture_txstream@) + section_plans(
            self.shreder_binary@,
            Protocol::ShrederBinary,
        ) + section_plans(self.arpc@, Protocol::Arpc) + section_plans(
            self.jetstream@,
            Protocol::Jetstream,
        )
    }

    /// The number of configured streams.
    pub open spec fn endpoint_count(&self) -> nat {
        self.yellowstone@.len() + self.jito_shredstream@.len() + self.aperture_txstream@.len()
            + self.shreder_binary@.len() + self.arpc@.len() + self.jetstream@.len()
    }
}


/// The value of the first variable named `name` in the environment snapshot
/// `env`.
fn lookup_env(env: &[(String, String)], name: &String) -> (res: Option<String>)
    ensures
        opt_view(res) == env_lookup(env@, name@),
{
    let mut i: usize = 0;
    assert(env@.skip(0) == env@);
    while i < env.len()
        invariant
            i <= env@.len(),
            env_lookup(env@, name@) == env_lookup(env@.skip(i as int), name@),
        decreases env@.len() - i,
    {
        assert(env@.skip(i as int).drop_first() == env@.skip(i + 1));
        if env[i].0 == *name {
            return Some(env[i].1.clone());
        }
        i = i + 1;
    }
    None
}

/// The token a stream authenticates with: `value` if given, else the
/// environment variable named `env_name` (an error if it is not set), else
/// the empty token.  `env` is a snapshot of the process environment.
pub fn resolve_token(value: &Option<String>, env_name: &Option<String>, env: &[(String, String)]) -> (res:
    Result<String, ConfigError>)
    ensures
        match token_for(opt_view(*value), opt_view(*env_name), env@) {
            Ok(t) => res matches Ok(s) && s@ == t,
            Err(n) => res matches Err(ConfigError::MissingTokenVariable(m)) && m@ == n,
        },
{
    match value {
        Some(v) => Ok(v.clone()),
        None => match env_name {
            None => Ok(String::new()),
            Some(name) => match lookup_env(env, name) {
                Some(v) => Ok(v),
                None => Err(ConfigError::MissingTokenVariable(name.clone())),
            },
        },
    }
}

/// The endpoint for a stream of a generic protocol section.
pub fn generic_endpoint(alias: &String, entry: &EndpointConfig, protocol: Protocol, env: &[(String, String)]) -> (res:
    Result<Endpoint, ConfigError>)
    ensures
        match resolve_plan(generic_plan((*alias, *entry), protocol), env@) {
            Ok(e) => res matches Ok(r) && r@ == e,
            Err(n) => res matches Err(ConfigError::MissingTokenVariable(m)) && m@ == n,
        },
{
    let token = resolve_token(&entry.x_token, &entry.x_token_env, env)?;
    Ok(Endpoint {
        alias: alias.clone(),
        protocol,
        url: entry.url.clone(),
        token,
        signatures_only: true,
        include_simulation: false,
        batch_mode: false,
    })
}

/// Appends the endpoints of one generic section to `out`.
fn push_section(out: &mut Vec<Endpoint>, section: &Vec<(String, EndpointConfig)>, protocol: Protocol, env: &[(String, String)]) -> (res:
    Result<(), ConfigError>)
    ensures
        match resolve_plans(section_plans(section@, protocol), env@) {
            Ok(v) => res is Ok && final(out)@.map_values(|e: Endpoint| e@) == old(out)@.map_values(|e: Endpoint| e@) + v,
            Err(n) => res matches Err(ConfigError::MissingTokenVariable(m)) && m@ == n,
        },
{
    let ghost start = out@.map_values(|e: Endpoint| e@);
    let ghost plans = section_plans(section@, protocol);
    for i in 0..section.len()
        invariant
            plans == section_plans(section@, protocol),
            resolve_plans(plans.take(i as int), env@) matches Ok(v) && out@.map_values(|e: Endpoint| e@) == start + v,
    {
        assert(plans.take(i + 1).drop_last() == plans.take(i as int));
        assert(plans.take(i + 1).last() == generic_plan(section@[i as int], protocol));
        let e = generic_endpoint(&section[i].0, &section[i].1, protocol, env);
        match e {
            Ok(e) => {
                let ghost before = out@;
                out.push(e);
                assert(out@.map_values(|e: Endpoint| e@) == before.map_values(|e: Endpoint| e@).push(e@));
            },
            Err(err) => {
                proof {
                    lemma_resolve_plans_prefix_err(plans, (i + 1) as int, env@);
                }
                return Err(err);
            },
        }
    }
    assert(plans.take(section@.len() as int) == plans);
    Ok(())
}

/// Appends the endpoints of the Aperture section to `out`.
fn push_aperture_section(out: &mut Vec<Endpoint>, section: &Vec<(String, ApertureEndpointConfig)>, env: &[(String, String)]) -> (res:
    Result<(), ConfigError>)
    ensures
        match resolve_plans(aperture_plans(section@), env@) {
            Ok(v) => res is Ok && final(out)@.map_values(|e: Endpoint| e@) == old(out)@.map_values(|e: Endpoint| e@) + v,
            Err(n) => res matches Err(ConfigError::MissingTokenVariable(m)) && m@ == n,
        },
{
    let ghost start = out@.map_values(|e: Endpoint| e@);
    let ghost plans = aperture_plans(section@);
    for i in 0..section.len()
        invariant
            plans == aperture_plans(section@),
            resolve_plans(plans.take(i as int), env@) matches Ok(v) && out@.map_values(|e: Endpoint| e@) == start + v,
    {
        assert(plans.take(i + 1).drop_last() == plans.take(i as int));
        assert(plans.take(i + 1).last() == aperture_plan(section@[i as int]));
        let entry = &section[i].1;
        let token = resolve_token(&entry.x_token, &entry.x_token_env, env);
        match token {
            Ok(token) => {
                let ghost before = out@;
                out.push(Endpoint {
                    alias: section[i].0.clone(),
                    protocol: Protocol::ApertureTxstream,
                    url: entry.url.clone(),
                    token,
                    signatures_only: entry.signatures_only,
                    include_simulation: entry.include_simulation,
                    batch_mode: entry.batch_mode,
                });
                assert(out@.map_values(|e: Endpoint| e@) == before.map_values(|e: Endpoint| e@).push(out@.last()@));
            },
            Err(err) => {
                proof {
                    lemma_resolve_plans_prefix_err(plans, (i + 1) as int, env@);
                }
                return Err(err);
            },
        }
    }
    assert(plans.take(section@.len() as int) == plans);
    Ok(())
}

/// A failure in a prefix of the plans is the failure of all of them.
proof fn lemma_resolve_plans_prefix_err(plans: Seq<EndpointPlan>, n: int, env: Seq<(String, String)>)
    requires
        0 <= n <= plans.len(),
        resolve_plans(plans.take(n), env) is Err,
    ensures
        resolve_plans(plans, env) == resolve_plans(plans.take(n), env),
{
    lemma_resolve_plans_append(plans.take(n), plans.skip(n), env);
    assert(plans.take(n) + plans.skip(n) == plans);
}

impl Config {
    /// The endpoints to benchmark: the streams of every section, sections in
    /// the order Yellowstone, Jito ShredStream, Aperture, Shreder Binary,
    /// aRPC, Jetstream, each section in its alias order.  Tokens come inline
    /// or from the environment snapshot `env`; the first stream whose token
    /// variable is unset makes the whole call fail.
    pub fn endpoints(&self, env: &[(String, String)]) -> (res: Result<Vec<Endpoint>, ConfigError>)
        ensures
            match resolve_plans(self.plans(), env@) {
                Ok(v) => res matches Ok(r) && r@.map_values(|e: Endpoint| e@) == v,
                Err(n) => res matches Err(ConfigError::MissingTokenVariable(m)) && m@ == n,
            },
    {
        let ghost p1 = section_plans(self.yellowstone@, Protocol::Yellowstone);
        let ghost p2 = section_plans(self.jito_shredstream@, Protocol::JitoShredstream);
        let ghost p3 = aperture_plans(self.aperture_txstream@);
        let ghost p4 = section_plans(self.shreder_binary@, Protocol::ShrederBinary);
        let ghost p5 = section_plans(self.arpc@, Protocol::Arpc);
        let ghost p6 = section_plans(self.jetstream@, Protocol::Jetstream);
        proof {
            lemma_resolve_plans_append(p1, p2, env@);
            lemma_resolve_plans_append(p1 + p2, p3, env@);
            lemma_resolve_plans_append(p1 + p2 + p3, p4, env@);
            lemma_resolve_plans_append(p1 + p2 + p3 + p4, p5, env@);
            lemma_resolve_plans_append(p1 + p2 + p3 + p4 + p5, p6, env@);
        }
        let mut out: Vec<Endpoint> = Vec::new();
        assert(out@.map_values(|e: Endpoint| e@) == Seq::<EndpointView>::empty());
        push_section(&mut out, &self.yellowstone, Protocol::Yellowstone, env)?;
        push_section(&mut out, &self.jito_shredstream, Protocol::JitoShredstream, env)?;
        push_aperture_section(&mut out, &self.aperture_txstream, env)?;
        push_section(&mut out, &self.shreder_binary, Protocol::ShrederBinary, env)?;
        push_section(&mut out, &self.arpc, Protocol::Arpc, env)?;
        push_section(&mut out, &self.jetstream, Protocol::Jetstream, env)?;
        Ok(out)
    }

    /// Refuses a configuration that names fewer than two streams: there is
    /// nothing to compare.
    pub fn validate(&self) -> (res: Result<(), ConfigError>)
        ensures
            res is Ok <==> self.endpoint_count() >= 2,
            res is Err ==> res == Err::<(), ConfigError>(ConfigError::TooFewEndpoints),
    {
        let lens = [
            self.yellowstone.len(),
            self.jito_shredstream.len(),
            self.aperture_txstream.len(),
            self.shreder_binary.len(),
            self.arpc.len(),
            self.jetstream.len(),
        ];
        let mut seen: usize = 0;
        proof {
            reveal_with_fuel(lens_sum, 7);
            assert(lens_sum(lens@, 6) == self.endpoint_count());
        }
        for i in 0..6
            invariant
                seen < 2,
                lens@ == seq![self.yellowstone@.len() as usize, self.jito_shredstream@.len() as usize,
                    self.aperture_txstream@.len() as usize, self.shreder_binary@.len() as usize,
                    self.arpc@.len() as usize, self.jetstream@.len() as usize],
                seen == lens_sum(lens@, i as int),
                lens_sum(lens@, 6) == self.endpoint_count(),
        {
            if lens[i] >= 2 - seen {
                proof { lemma_lens_sum_mono(lens@, i + 1, 6); }
                return Ok(());
            }
            seen = seen + lens[i];
        }
        Err(ConfigError::TooFewEndpoints)
    }
}

/// The sum of the first `n` lengths.
pub open spec fn lens_sum(lens: Seq<usize>, n: int) -> nat
    decreases n,
{
    if n <= 0 || n > lens.len() {
        0
    } else {
        lens_sum(lens, n - 1) + lens[n - 1] as nat
    }
}

proof fn lemma_lens_sum_mono(lens: Seq<usize>, m: int, n: int)
    requires
        0 <= m <= n <= lens.len(),
    ensures
        lens_sum(lens, m) <= lens_sum(lens, n),
    decreases n,
{
    if n > m {
        lemma_lens_sum_mono(lens, m, n - 1);
    }
}

} // verus!
