//! The relay's configuration, and what makes it usable.
use vstd::prelude::*;
use vstd::utf8::*;

use crate::audit;
use crate::bytes::{copy_bytes, text_bytes};
use crate::labels::Labels;
use crate::relay::secret::Secret;
use crate::text;
use crate::text::{
    copy_text, debug_text, decimal_text, join2, join3, push_text, same_text, starts_with, trim_text,
};

verus! {

// ---------------------------------------------------------------------------
// The configuration
// ---------------------------------------------------------------------------
/// The relay's configuration.
#[derive(Debug)]
pub struct Config {
    /// Where events come from; at least one is needed.
    pub sources: Vec<SourceConfig>,
    /// What adds labels to events, in order.
    pub enrichments: Vec<EnricherConfig>,
    /// Who gets the events.
    pub subscribers: Vec<SubscriberConfig>,
    /// Settings of the process.
    pub relay: RelayConfig,
}

/// The number of deliveries that may wait for one subscriber, unless set.
pub const DEFAULT_SUBSCRIBER_QUEUE: usize = 10_000;

/// Settings of the process.
#[derive(Debug)]
pub struct RelayConfig {
    /// The name of this relay; the machine's name, unless set.
    pub instance_id: Option<String>,
    /// The number of deliveries that may wait for one subscriber.
    pub subscriber_queue: usize,
    /// The environment variable that holds the admin token.
    pub admin_token_env: Option<String>,
    /// The file that holds the admin token.
    pub admin_token_file: Option<String>,
}

impl Default for RelayConfig {
    fn default() -> (r: RelayConfig)
        ensures
            r.instance_id is None,
            r.subscriber_queue == DEFAULT_SUBSCRIBER_QUEUE,
            r.admin_token_env is None,
            r.admin_token_file is None,
    {
        RelayConfig {
            instance_id: None,
            subscriber_queue: DEFAULT_SUBSCRIBER_QUEUE,
            admin_token_env: None,
            admin_token_file: None,
        }
    }
}

/// Where events come from.
#[derive(Debug)]
pub enum SourceConfig {
    /// A file that grows and is rotated.
    LogTail {
        /// The file.
        path: String,
        /// Whether to start at the beginning of the file rather than its end.
        from_beginning: bool,
    },
    /// Standard input.
    Stdin,
}

/// How long an HTTP enricher waits, in milliseconds, unless set.
pub const DEFAULT_ENRICHER_TIMEOUT_MS: u64 = 500;

/// How long an HTTP enricher keeps an answer, in seconds, unless set.
pub const DEFAULT_CACHE_TTL_S: u64 = 300;

/// How many answers an HTTP enricher keeps, unless set.
pub const DEFAULT_CACHE_CAPACITY: usize = 1024;

/// What adds labels to events.
#[derive(Debug)]
pub enum EnricherConfig {
    /// A table from values of a label to further labels.
    Lookup {
        /// The label.
        on_label: String,
        /// The further labels for each value.
        table: Vec<(String, Labels)>,
    },
    /// A service that is asked for further labels.
    Http {
        /// The label.
        on_label: String,
        /// The address, with `{value}` where the label's value goes.
        url: String,
        /// How long to wait, in milliseconds.
        timeout_ms: u64,
        /// How long to keep an answer, in seconds.
        cache_ttl_s: u64,
        /// How many answers to keep.
        cache_capacity: usize,
    },
}

/// How long a delivery may take, in milliseconds, unless set.
pub const DEFAULT_SUBSCRIBER_TIMEOUT_MS: u64 = 30_000;

/// Who gets events.
#[derive(Debug)]
pub struct SubscriberConfig {
    /// The subscriber's name.
    pub id: String,
    /// Where to deliver.
    pub url: String,
    /// The environment variable that holds the signing secret.
    pub secret_env: Option<String>,
    /// The file that holds the signing secret.
    pub secret_file: Option<String>,
    /// Which events to deliver.
    pub filter: SubscriberFilter,
    /// How to retry.
    pub retry: RetryConfig,
    /// How long a delivery may take, in milliseconds.
    pub timeout_ms: u64,
    /// Whether to deliver at all.
    pub enabled: bool,
}

/// Which events a subscriber gets; an empty filter lets everything pass.
#[derive(Debug)]
pub struct SubscriberFilter {
    /// Labels that an event must have.
    pub labels: Labels,
    /// The least severity.
    pub severity_min: Option<Severity>,
    /// A pattern for the rule, with `*` for any text.
    pub blocked_rule_pattern: Option<String>,
}

impl Default for SubscriberFilter {
    fn default() -> (r: SubscriberFilter)
        ensures
            r.labels.wf(),
            r.labels.entries@.len() == 0,
            r.severity_min is None,
            r.blocked_rule_pattern is None,
    {
        SubscriberFilter {
            labels: Labels::new(),
            severity_min: None,
            blocked_rule_pattern: None,
        }
    }
}

/// The severity of an event.
#[derive(Debug, Clone, Copy, PartialEq, Eq, PartialOrd, Ord, Structural)]
pub enum Severity {
    Low,
    Medium,
    High,
    Critical,
}

impl Severity {
    /// The place on the severity ladder.
    pub open spec fn rank(self) -> int {
        match self {
            Severity::Low => 0,
            Severity::Medium => 1,
            Severity::High => 2,
            Severity::Critical => 3,
        }
    }

    pub fn level(&self) -> (r: u8)
        ensures
            r == self.rank(),
    {
        match self {
            Severity::Low => 0,
            Severity::Medium => 1,
            Severity::High => 2,
            Severity::Critical => 3,
        }
    }
}

/// The number of attempts, unless set.
pub const DEFAULT_MAX_ATTEMPTS: u32 = 8;

/// The first delay between attempts, in milliseconds, unless set.
pub const DEFAULT_BASE_DELAY_MS: u64 = 500;

/// The longest delay between attempts, in milliseconds, unless set.
pub const DEFAULT_MAX_DELAY_MS: u64 = 600_000;

/// How deliveries are retried.
#[derive(Debug, Clone, Copy, PartialEq, Eq, Structural)]
pub struct RetryConfig {
    /// The number of attempts.
    pub max_attempts: u32,
    /// The first delay, in milliseconds.
    pub base_delay_ms: u64,
    /// The longest delay, in milliseconds.
    pub max_delay_ms: u64,
}

impl Default for RetryConfig {
    fn default() -> (r: RetryConfig)
        ensures
            r.max_attempts == DEFAULT_MAX_ATTEMPTS,
            r.base_delay_ms == DEFAULT_BASE_DELAY_MS,
            r.max_delay_ms == DEFAULT_MAX_DELAY_MS,
    {
        RetryConfig {
            max_attempts: DEFAULT_MAX_ATTEMPTS,
            base_delay_ms: DEFAULT_BASE_DELAY_MS,
            max_delay_ms: DEFAULT_MAX_DELAY_MS,
        }
    }
}

// ---------------------------------------------------------------------------
// What is wrong with a configuration
// ---------------------------------------------------------------------------
/// What is wrong with a configuration.
#[derive(Debug, PartialEq, Eq)]
pub enum ConfigError {
    NoSources,
    ZeroQueue,
    DuplicateSubscriber { id: String },
    BadUrl { id: String, url: String },
    BothSecrets { id: String },
    NoSecret { id: String },
    SecretEnvUnset { id: String, name: String },
    SecretEnvEmpty { id: String, name: String },
    SecretFileUnreadable { id: String, path: String, error: String },
    SecretFileEmpty { id: String, path: String },
    NoAttempts { id: String },
    DelaysReversed { id: String, base: u64, max: u64 },
    BothAdminTokens,
    AdminEnvUnset { name: String },
    AdminEnvEmpty { name: String },
    AdminFileUnreadable { path: String, error: String },
    AdminFileEmpty { path: String },
}

/// What is wrong, by its texts.
pub enum Problem {
    NoSources,
    ZeroQueue,
    DuplicateSubscriber(Seq<char>),
    BadUrl(Seq<char>, Seq<char>),
    BothSecrets(Seq<char>),
    NoSecret(Seq<char>),
    SecretEnvUnset(Seq<char>, Seq<char>),
    SecretEnvEmpty(Seq<char>, Seq<char>),
    SecretFileUnreadable(Seq<char>, Seq<char>, Seq<char>),
    SecretFileEmpty(Seq<char>, Seq<char>),
    NoAttempts(Seq<char>),
    DelaysReversed(Seq<char>, u64, u64),
    BothAdminTokens,
    AdminEnvUnset(Seq<char>),
    AdminEnvEmpty(Seq<char>),
    AdminFileUnreadable(Seq<char>, Seq<char>),
    AdminFileEmpty(Seq<char>),
}

impl View for ConfigError {
    type V = Problem;

    open spec fn view(&self) -> Problem {
        match *self {
            ConfigError::NoSources => Problem::NoSources,
            ConfigError::ZeroQueue => Problem::ZeroQueue,
            ConfigError::DuplicateSubscriber { id } => Problem::DuplicateSubscriber(id@),
            ConfigError::BadUrl { id, url } => Problem::BadUrl(id@, url@),
            ConfigError::BothSecrets { id } => Problem::BothSecrets(id@),
            ConfigError::NoSecret { id } => Problem::NoSecret(id@),
            ConfigError::SecretEnvUnset { id, name } => Problem::SecretEnvUnset(id@, name@),
            ConfigError::SecretEnvEmpty { id, name } => Problem::SecretEnvEmpty(id@, name@),
            ConfigError::SecretFileUnreadable { id, path, error } => Problem::SecretFileUnreadable(
                id@,
                path@,
                error@,
            ),
            ConfigError::SecretFileEmpty { id, path } => Problem::SecretFileEmpty(id@, path@),
            ConfigError::NoAttempts { id } => Problem::NoAttempts(id@),
            ConfigError::DelaysReversed { id, base, max } => Problem::DelaysReversed(
                id@,
                base,
                max,
            ),
            ConfigError::BothAdminTokens => Problem::BothAdminTokens,
            ConfigError::AdminEnvUnset { name } => Problem::AdminEnvUnset(name@),
            ConfigError::AdminEnvEmpty { name } => Problem::AdminEnvEmpty(name@),
            ConfigError::AdminFileUnreadable { path, error } => Problem::AdminFileUnreadable(
                path@,
                error@,
            ),
            ConfigError::AdminFileEmpty { path } => Problem::AdminFileEmpty(path@),
        }
    }
}

/// What is wrong, in words.
pub open spec fn problem_text(p: Problem) -> Seq<char> {
    match p {
        Problem::NoSources => "config: at least one source must be configured"@,
        Problem::ZeroQueue => "relay.subscriber_queue must be greater than zero"@,
        Problem::DuplicateSubscriber(id) => "config: duplicate subscriber id "@ + text::debug_quoted(id),
        Problem::BadUrl(id, url) => "subscriber "@ + text::debug_quoted(id) + ": url "@ + text::debug_quoted(
            url,
        ) + " must be http:// or https://"@,
        Problem::BothSecrets(id) => "subscriber "@ + text::debug_quoted(id)
            + ": only one of secret_env / secret_file may be set"@,
        Problem::NoSecret(id) => "subscriber "@ + text::debug_quoted(id)
            + ": one of secret_env / secret_file must be set"@,
        Problem::SecretEnvUnset(id, name) => "subscriber "@ + text::debug_quoted(id) + ": env var "@
            + text::debug_quoted(name) + " (referenced by secret_env) is not set"@,
        Problem::SecretEnvEmpty(id, name) => "subscriber "@ + text::debug_quoted(id) + ": env var "@
            + text::debug_quoted(name) + " (referenced by secret_env) is empty"@,
        Problem::SecretFileUnreadable(id, path, error) => "subscriber "@ + text::debug_quoted(id)
            + ": reading secret_file "@ + path + ": "@ + error,
        Problem::SecretFileEmpty(id, path) => "subscriber "@ + text::debug_quoted(id)
            + ": secret_file "@ + path + " is empty"@,
        Problem::NoAttempts(id) => "subscriber "@ + text::debug_quoted(id)
            + ": retry.max_attempts must be \u{2265} 1"@,
        Problem::DelaysReversed(id, base, max) => "subscriber "@ + text::debug_quoted(id)
            + ": retry.base_delay_ms ("@ + text::decimal(base as nat) + ") > retry.max_delay_ms ("@
            + text::decimal(max as nat) + ")"@,
        Problem::BothAdminTokens =>
            "relay: only one of admin_token_env / admin_token_file may be set"@,
        Problem::AdminEnvUnset(name) => "relay: admin_token_env "@ + text::debug_quoted(name)
            + " is not set"@,
        Problem::AdminEnvEmpty(name) => "relay: admin_token_env "@ + text::debug_quoted(name)
            + " is empty"@,
        Problem::AdminFileUnreadable(path, error) => "relay: reading admin_token_file "@ + path
            + ": "@ + error,
        Problem::AdminFileEmpty(path) => "relay: admin_token_file "@ + path + " is empty"@,
    }
}

fn of_subscriber(id: &str, what: &str) -> (r: String)
    ensures
        r@ == "subscriber "@ + text::debug_quoted(id@) + what@,
{
    join3("subscriber ", &debug_text(id), what)
}

impl ConfigError {
    /// What is wrong, in words.
    pub fn message(&self) -> (r: String)
        ensures
            r@ == problem_text(self@),
    {
        match self {
            ConfigError::NoSources => copy_text("config: at least one source must be configured"),
            ConfigError::ZeroQueue => copy_text(
                "relay.subscriber_queue must be greater than zero",
            ),
            ConfigError::DuplicateSubscriber { id } => join2(
                "config: duplicate subscriber id ",
                &debug_text(id),
            ),
            ConfigError::BadUrl { id, url } => {
                let mut out = of_subscriber(id, ": url ");
                push_text(&mut out, &debug_text(url));
                push_text(&mut out, " must be http:// or https://");
                out
            },
            ConfigError::BothSecrets { id } => of_subscriber(
                id,
                ": only one of secret_env / secret_file may be set",
            ),
            ConfigError::NoSecret { id } => of_subscriber(
                id,
                ": one of secret_env / secret_file must be set",
            ),
            ConfigError::SecretEnvUnset { id, name } => {
                let mut out = of_subscriber(id, ": env var ");
                push_text(&mut out, &debug_text(name));
                push_text(&mut out, " (referenced by secret_env) is not set");
                out
            },
            ConfigError::SecretEnvEmpty { id, name } => {
                let mut out = of_subscriber(id, ": env var ");
                push_text(&mut out, &debug_text(name));
                push_text(&mut out, " (referenced by secret_env) is empty");
                out
            },
            ConfigError::SecretFileUnreadable { id, path, error } => {
                let mut out = of_subscriber(id, ": reading secret_file ");
                push_text(&mut out, path);
                push_text(&mut out, ": ");
                push_text(&mut out, error);
                out
            },
            ConfigError::SecretFileEmpty { id, path } => {
                let mut out = of_subscriber(id, ": secret_file ");
                push_text(&mut out, path);
                push_text(&mut out, " is empty");
                out
            },
            ConfigError::NoAttempts { id } => of_subscriber(
                id,
                ": retry.max_attempts must be \u{2265} 1",
            ),
            ConfigError::DelaysReversed { id, base, max } => {
                let mut out = of_subscriber(id, ": retry.base_delay_ms (");
                push_text(&mut out, &decimal_text(*base));
                push_text(&mut out, ") > retry.max_delay_ms (");
                push_text(&mut out, &decimal_text(*max));
                push_text(&mut out, ")");
                out
            },
            ConfigError::BothAdminTokens => copy_text(
                "relay: only one of admin_token_env / admin_token_file may be set",
            ),
            ConfigError::AdminEnvUnset { name } => join3(
                "relay: admin_token_env ",
                &debug_text(name),
                " is not set",
            ),
            ConfigError::AdminEnvEmpty { name } => join3(
                "relay: admin_token_env ",
                &debug_text(name),
                " is empty",
            ),
            ConfigError::AdminFileUnreadable { path, error } => {
                let mut out = join3("relay: reading admin_token_file ", path, ": ");
                push_text(&mut out, error);
                out
            },
            ConfigError::AdminFileEmpty { path } => join3(
                "relay: admin_token_file ",
                path,
                " is empty",
            ),
        }
    }
}

// ---------------------------------------------------------------------------
// Validation
// ---------------------------------------------------------------------------
/// What was found where a subscriber's secret may be.
#[derive(Debug)]
pub struct SecretReads {
    /// The environment variable, if it is set.
    pub env: Option<String>,
    /// The file, or why it could not be read.
    pub file: Result<Vec<u8>, String>,
}

/// What was found where the admin token may be.
#[derive(Debug)]
pub struct TokenReads {
    /// The environment variable, if it is set.
    pub env: Option<String>,
    /// The file, or why it could not be read.
    pub file: Result<String, String>,
}

/// A configuration that is usable, with its secrets.
pub struct Resolved {
    /// The configuration.
    pub raw: Config,
    /// The signing secret of each subscriber, by its name.
    pub subscriber_secrets: Vec<(String, Secret)>,
    /// The name of this relay.
    pub instance_id: String,
    /// The admin token; without one, the admin endpoints are open.
    pub admin_token: Option<Secret>,
}

/// A byte that editors leave at the end of a file.
pub open spec fn is_trailing(b: u8) -> bool {
    b == 10 || b == 13 || b == 32 || b == 9
}

/// Bytes without the white space at their end.
pub open spec fn trimmed(b: Seq<u8>) -> Seq<u8>
    decreases b.len(),
{
    if b.len() > 0 && is_trailing(b.last()) {
        trimmed(b.drop_last())
    } else {
        b
    }
}

/// What is wrong with a subscriber's secret.
pub open spec fn secret_problem(s: SubscriberConfig, r: SecretReads) -> Option<Problem> {
    match (s.secret_env, s.secret_file) {
        (Some(_), Some(_)) => Some(Problem::BothSecrets(s.id@)),
        (None, None) => Some(Problem::NoSecret(s.id@)),
        (Some(name), None) => match r.env {
            None => Some(Problem::SecretEnvUnset(s.id@, name@)),
            Some(v) => if v@.len() == 0 {
                Some(Problem::SecretEnvEmpty(s.id@, name@))
            } else {
                None
            },
        },
        (None, Some(path)) => match r.file {
            Err(e) => Some(Problem::SecretFileUnreadable(s.id@, path@, e@)),
            Ok(b) => if trimmed(b@).len() == 0 {
                Some(Problem::SecretFileEmpty(s.id@, path@))
            } else {
                None
            },
        },
    }
}

/// A subscriber's secret, where nothing is wrong with it.
pub open spec fn secret_of(s: SubscriberConfig, r: SecretReads) -> Seq<u8> {
    match s.secret_env {
        Some(_) => encode_utf8(r.env->0@),
        None => trimmed(r.file->Ok_0@),
    }
}

/// What is wrong with a subscriber.
pub open spec fn subscriber_problem(s: SubscriberConfig, r: SecretReads) -> Option<Problem> {
    if !text::has_prefix(s.url@, "http://"@) && !text::has_prefix(s.url@, "https://"@) {
        Some(Problem::BadUrl(s.id@, s.url@))
    } else if secret_problem(s, r) is Some {
        secret_problem(s, r)
    } else if s.retry.max_attempts == 0 {
        Some(Problem::NoAttempts(s.id@))
    } else if s.retry.base_delay_ms > s.retry.max_delay_ms {
        Some(
            Problem::DelaysReversed(s.id@, s.retry.base_delay_ms, s.retry.max_delay_ms),
        )
    } else {
        None
    }
}

/// What is wrong with the first subscriber, from `i` on, with which anything is.
pub open spec fn subscribers_problem(
    subs: Seq<SubscriberConfig>,
    reads: Seq<SecretReads>,
    i: int,
) -> Option<Problem>
    decreases subs.len() - i,
{
    if i < 0 || i >= subs.len() {
        None
    } else if subscriber_problem(subs[i], reads[i]) is Some {
        subscriber_problem(subs[i], reads[i])
    } else {
        subscribers_problem(subs, reads, i + 1)
    }
}

/// An earlier subscriber has the same name.
pub open spec fn is_repeated(subs: Seq<SubscriberConfig>, i: int) -> bool {
    exists|k: int| 0 <= k < i && (#[trigger] subs[k]).id@ == subs[i].id@
}

/// The first subscriber, from `i` on, whose name is taken.
pub open spec fn repeated_problem(subs: Seq<SubscriberConfig>, i: int) -> Option<Problem>
    decreases subs.len() - i,
{
    if i < 0 || i >= subs.len() {
        None
    } else if is_repeated(subs, i) {
        Some(Problem::DuplicateSubscriber(subs[i].id@))
    } else {
        repeated_problem(subs, i + 1)
    }
}

/// What is wrong with the admin token.
pub open spec fn token_problem(relay: RelayConfig, r: TokenReads) -> Option<Problem> {
    match (relay.admin_token_env, relay.admin_token_file) {
        (None, None) => None,
        (Some(_), Some(_)) => Some(Problem::BothAdminTokens),
        (Some(name), None) => match r.env {
            None => Some(Problem::AdminEnvUnset(name@)),
            Some(v) => if v@.len() == 0 {
                Some(Problem::AdminEnvEmpty(name@))
            } else {
                None
            },
        },
        (None, Some(path)) => match r.file {
            Err(e) => Some(Problem::AdminFileUnreadable(path@, e@)),
            Ok(t) => if text::trim(t@).len() == 0 {
                Some(Problem::AdminFileEmpty(path@))
            } else {
                None
            },
        },
    }
}

/// The admin token, where nothing is wrong with it.
pub open spec fn token_of(relay: RelayConfig, r: TokenReads) -> Option<Seq<u8>> {
    match (relay.admin_token_env, relay.admin_token_file) {
        (None, None) => None,
        (Some(_), _) => Some(encode_utf8(r.env->0@)),
        (None, Some(_)) => Some(encode_utf8(text::trim(r.file->Ok_0@))),
    }
}

/// The first thing that is wrong with a configuration.
pub open spec fn config_problem(
    cfg: Config,
    reads: Seq<SecretReads>,
    token: TokenReads,
) -> Option<Problem> {
    if cfg.sources@.len() == 0 {
        Some(Problem::NoSources)
    } else if cfg.relay.subscriber_queue == 0 {
        Some(Problem::ZeroQueue)
    } else if repeated_problem(cfg.subscribers@, 0) is Some {
        repeated_problem(cfg.subscribers@, 0)
    } else if subscribers_problem(cfg.subscribers@, reads, 0) is Some {
        subscribers_problem(cfg.subscribers@, reads, 0)
    } else {
        token_problem(cfg.relay, token)
    }
}

/// The name of the relay where neither the configuration nor the machine has one.
pub const DEFAULT_INSTANCE_ID: &'static str = "purple-wolf-relay";

/// The name of the relay: the configured one, else the machine's.
pub open spec fn instance_name(relay: RelayConfig, machine: Option<Seq<char>>) -> Seq<char> {
    match relay.instance_id {
        Some(id) => id@,
        None => match machine {
            Some(name) => if name.len() > 0 {
                name
            } else {
                DEFAULT_INSTANCE_ID@
            },
            None => DEFAULT_INSTANCE_ID@,
        },
    }
}

/// An optional secret, by its bytes.
pub open spec fn opt_secret(o: Option<Secret>) -> Option<Seq<u8>> {
    match o {
        Some(s) => Some(s@),
        None => None,
    }
}

/// The secrets are those of the subscribers, in order.
pub open spec fn are_secrets_of(
    secrets: Seq<(String, Secret)>,
    subs: Seq<SubscriberConfig>,
    reads: Seq<SecretReads>,
) -> bool {
    &&& secrets.len() == subs.len()
    &&& forall|i: int|
        0 <= i < subs.len() ==> (#[trigger] secrets[i]).0@ == subs[i].id@ && secrets[i].1@
            == secret_of(subs[i], reads[i])
}

/// `gethostname::gethostname`: the machine's name, where it is text. Nothing is
/// claimed of it.
#[verifier::external_body]
fn machine_name() -> Option<String> {
    gethostname::gethostname().into_string().ok()
}

fn trim_trailing(b: &Vec<u8>) -> (r: Vec<u8>)
    ensures
        r@ == trimmed(b@),
{
    let mut out = copy_bytes(b);
    while out.len() > 0 && (out[out.len() - 1] == 10 || out[out.len() - 1] == 13 || out[out.len()
        - 1] == 32 || out[out.len() - 1] == 9)
        invariant
            trimmed(b@) == trimmed(out@),
        decreases out@.len(),
    {
        let ghost before = out@;
        out.pop();
        assert(out@ == before.drop_last());
    }
    out
}

fn resolve_secret(s: &SubscriberConfig, r: &SecretReads) -> (out: Result<Secret, ConfigError>)
    ensures
        match out {
            Ok(secret) => secret_problem(*s, *r) is None && secret@ == secret_of(*s, *r),
            Err(e) => secret_problem(*s, *r) == Some(e@),
        },
{
    match (&s.secret_env, &s.secret_file) {
        (Some(_), Some(_)) => Err(ConfigError::BothSecrets { id: copy_text(&s.id) }),
        (None, None) => Err(ConfigError::NoSecret { id: copy_text(&s.id) }),
        (Some(name), None) => match &r.env {
            None => Err(
                ConfigError::SecretEnvUnset { id: copy_text(&s.id), name: copy_text(name) },
            ),
            Some(v) => if v.as_str().is_empty() {
                Err(ConfigError::SecretEnvEmpty { id: copy_text(&s.id), name: copy_text(name) })
            } else {
                Ok(Secret::new(text_bytes(v)))
            },
        },
        (None, Some(path)) => match &r.file {
            Err(e) => Err(
                ConfigError::SecretFileUnreadable {
                    id: copy_text(&s.id),
                    path: copy_text(path),
                    error: copy_text(e),
                },
            ),
            Ok(b) => {
                let t = trim_trailing(b);
                if t.len() == 0 {
                    Err(
                        ConfigError::SecretFileEmpty { id: copy_text(&s.id), path: copy_text(path) },
                    )
                } else {
                    Ok(Secret::new(t))
                }
            },
        },
    }
}

fn resolve_subscriber(s: &SubscriberConfig, r: &SecretReads) -> (out: Result<Secret, ConfigError>)
    ensures
        match out {
            Ok(secret) => subscriber_problem(*s, *r) is None && secret@ == secret_of(*s, *r),
            Err(e) => subscriber_problem(*s, *r) == Some(e@),
        },
{
    if !starts_with(&s.url, "http://") && !starts_with(&s.url, "https://") {
        return Err(ConfigError::BadUrl { id: copy_text(&s.id), url: copy_text(&s.url) });
    }
    let secret = match resolve_secret(s, r) {
        Ok(secret) => secret,
        Err(e) => {
            return Err(e);
        },
    };
    if s.retry.max_attempts == 0 {
        return Err(ConfigError::NoAttempts { id: copy_text(&s.id) });
    }
    if s.retry.base_delay_ms > s.retry.max_delay_ms {
        return Err(
            ConfigError::DelaysReversed {
                id: copy_text(&s.id),
                base: s.retry.base_delay_ms,
                max: s.retry.max_delay_ms,
            },
        );
    }
    Ok(secret)
}

/// Resolves the admin token from what was found where it may be. At most one
/// place may be named, and it must not be empty.
pub fn resolve_admin_token(relay: &RelayConfig, r: &TokenReads) -> (out: Result<
    Option<Secret>,
    ConfigError,
>)
    ensures
        match out {
            Ok(t) => token_problem(*relay, *r) is None && opt_secret(t) == token_of(*relay, *r),
            Err(e) => token_problem(*relay, *r) == Some(e@),
        },
{
    match (&relay.admin_token_env, &relay.admin_token_file) {
        (None, None) => Ok(None),
        (Some(_), Some(_)) => Err(ConfigError::BothAdminTokens),
        (Some(name), None) => match &r.env {
            None => Err(ConfigError::AdminEnvUnset { name: copy_text(name) }),
            Some(v) => if v.as_str().is_empty() {
                Err(ConfigError::AdminEnvEmpty { name: copy_text(name) })
            } else {
                Ok(Some(Secret::new(text_bytes(v))))
            },
        },
        (None, Some(path)) => match &r.file {
            Err(e) => Err(
                ConfigError::AdminFileUnreadable { path: copy_text(path), error: copy_text(e) },
            ),
            Ok(t) => {
                let inner = trim_text(t);
                if inner.as_str().is_empty() {
                    Err(ConfigError::AdminFileEmpty { path: copy_text(path) })
                } else {
                    Ok(Some(Secret::new(text_bytes(&inner))))
                }
            },
        },
    }
}

fn find_repeated(subs: &Vec<SubscriberConfig>) -> (r: Option<ConfigError>)
    ensures
        match r {
            Some(e) => repeated_problem(subs@, 0) == Some(e@),
            None => repeated_problem(subs@, 0) is None,
        },
{
    let mut i: usize = 0;
    while i < subs.len()
        invariant
            i <= subs@.len(),
            repeated_problem(subs@, 0) == repeated_problem(subs@, i as int),
        decreases subs@.len() - i,
    {
        let mut k: usize = 0;
        while k < i
            invariant
                k <= i < subs@.len(),
                repeated_problem(subs@, 0) == repeated_problem(subs@, i as int),
                forall|j: int| 0 <= j < k ==> (#[trigger] subs@[j]).id@ != subs@[i as int].id@,
            decreases i - k,
        {
            if same_text(&subs[k].id, &subs[i].id) {
                assert(subs@[k as int].id@ == subs@[i as int].id@);
                assert(is_repeated(subs@, i as int));
                return Some(ConfigError::DuplicateSubscriber { id: copy_text(&subs[i].id) });
            }
            k = k + 1;
        }
        assert(!is_repeated(subs@, i as int));
        i = i + 1;
    }
    None
}

/// Checks a configuration and resolves its secrets, given the machine's name.
pub fn validate_with(
    cfg: Config,
    reads: &Vec<SecretReads>,
    token: &TokenReads,
    machine: Option<String>,
) -> (r: Result<Resolved, ConfigError>)
    requires
        reads@.len() == cfg.subscribers@.len(),
    ensures
        match r {
            Ok(resolved) => {
                &&& config_problem(cfg, reads@, *token) is None
                &&& resolved.raw == cfg
                &&& are_secrets_of(resolved.subscriber_secrets@, cfg.subscribers@, reads@)
                &&& resolved.instance_id@ == instance_name(cfg.relay, audit::opt_view(machine))
                &&& opt_secret(resolved.admin_token) == token_of(cfg.relay, *token)
            },
            Err(e) => config_problem(cfg, reads@, *token) == Some(e@),
        },
{
    if cfg.sources.len() == 0 {
        return Err(ConfigError::NoSources);
    }
    if cfg.relay.subscriber_queue == 0 {
        return Err(ConfigError::ZeroQueue);
    }
    match find_repeated(&cfg.subscribers) {
        Some(e) => {
            return Err(e);
        },
        None => {},
    }
    let ghost subs = cfg.subscribers@;
    let mut secrets: Vec<(String, Secret)> = Vec::new();
    let mut i: usize = 0;
    while i < cfg.subscribers.len()
        invariant
            i <= subs.len(),
            subs == cfg.subscribers@,
            reads@.len() == subs.len(),
            cfg.sources@.len() > 0,
            cfg.relay.subscriber_queue != 0,
            repeated_problem(subs, 0) is None,
            subscribers_problem(subs, reads@, 0) == subscribers_problem(subs, reads@, i as int),
            secrets@.len() == i,
            forall|k: int|
                0 <= k < i ==> (#[trigger] secrets@[k]).0@ == subs[k].id@ && secrets@[k].1@
                    == secret_of(subs[k], reads@[k]),
        decreases subs.len() - i,
    {
        match resolve_subscriber(&cfg.subscribers[i], &reads[i]) {
            Ok(secret) => {
                let id = copy_text(&cfg.subscribers[i].id);
                secrets.push((id, secret));
            },
            Err(e) => {
                return Err(e);
            },
        }
        i = i + 1;
    }
    let instance_id = match &cfg.relay.instance_id {
        Some(id) => copy_text(id),
        None => match machine {
            Some(name) => if name.as_str().is_empty() {
                copy_text(DEFAULT_INSTANCE_ID)
            } else {
                name
            },
            None => copy_text(DEFAULT_INSTANCE_ID),
        },
    };
    match resolve_admin_token(&cfg.relay, token) {
        Ok(admin_token) => Ok(
            Resolved { raw: cfg, subscriber_secrets: secrets, instance_id, admin_token },
        ),
        Err(e) => Err(e),
    }
}

/// Checks a configuration and resolves its secrets from what was found where
/// they may be: `reads[i]` for subscriber `i`.
pub fn validate(cfg: Config, reads: &Vec<SecretReads>, token: &TokenReads) -> (r: Result<
    Resolved,
    ConfigError,
>)
    requires
        reads@.len() == cfg.subscribers@.len(),
    ensures
        match r {
            Ok(resolved) => {
                &&& config_problem(cfg, reads@, *token) is None
                &&& resolved.raw == cfg
                &&& are_secrets_of(resolved.subscriber_secrets@, cfg.subscribers@, reads@)
                &&& exists|machine: Option<Seq<char>>|
                    resolved.instance_id@ == #[trigger] instance_name(cfg.relay, machine)
                &&& opt_secret(resolved.admin_token) == token_of(cfg.relay, *token)
            },
            Err(e) => config_problem(cfg, reads@, *token) == Some(e@),
        },
{
    let machine = machine_name();
    validate_with(cfg, reads, token, machine)
}

/// Whether any subscriber is to be delivered to.
pub fn any_enabled(subs: &Vec<SubscriberConfig>) -> (r: bool)
    ensures
        r == exists|i: int| 0 <= i < subs@.len() && (#[trigger] subs@[i]).enabled,
{
    let mut i: usize = 0;
    while i < subs.len()
        invariant
            i <= subs@.len(),
            forall|k: int| 0 <= k < i ==> !(#[trigger] subs@[k]).enabled,
        decreases subs@.len() - i,
    {
        if subs[i].enabled {
            return true;
        }
        i = i + 1;
    }
    false
}

// ---------------------------------------------------------------------------
// Laws
// ---------------------------------------------------------------------------
proof fn lemma_no_subscriber_problem(
    subs: Seq<SubscriberConfig>,
    reads: Seq<SecretReads>,
    i: int,
    j: int,
)
    requires
        0 <= i <= j < subs.len(),
        subscribers_problem(subs, reads, i) is None,
    ensures
        subscriber_problem(subs[j], reads[j]) is None,
    decreases j - i,
{
    if i < j {
        lemma_no_subscriber_problem(subs, reads, i + 1, j);
    }
}

proof fn lemma_no_repeated(subs: Seq<SubscriberConfig>, i: int, j: int)
    requires
        0 <= i <= j < subs.len(),
        repeated_problem(subs, i) is None,
    ensures
        !is_repeated(subs, j),
    decreases j - i,
{
    if i < j {
        lemma_no_repeated(subs, i + 1, j);
    }
}

/// In a configuration that is accepted, the subscribers' names are distinct.
pub proof fn law_accepted_names_are_distinct(
    cfg: Config,
    reads: Seq<SecretReads>,
    token: TokenReads,
    i: int,
    j: int,
)
    requires
        config_problem(cfg, reads, token) is None,
        0 <= i < j < cfg.subscribers@.len(),
    ensures
        cfg.subscribers@[i].id@ != cfg.subscribers@[j].id@,
{
    lemma_no_repeated(cfg.subscribers@, 0, j);
    if cfg.subscribers@[i].id@ == cfg.subscribers@[j].id@ {
        assert(is_repeated(cfg.subscribers@, j));
    }
}

/// In a configuration that is accepted, every subscriber has a secret that is
/// not empty, and is tried at least once.
pub proof fn law_accepted_subscribers_are_usable(
    cfg: Config,
    reads: Seq<SecretReads>,
    token: TokenReads,
    i: int,
)
    requires
        config_problem(cfg, reads, token) is None,
        0 <= i < cfg.subscribers@.len(),
    ensures
        secret_of(cfg.subscribers@[i], reads[i]).len() > 0,
        cfg.subscribers@[i].retry.max_attempts >= 1,
        cfg.subscribers@[i].retry.base_delay_ms <= cfg.subscribers@[i].retry.max_delay_ms,
{
    lemma_no_subscriber_problem(cfg.subscribers@, reads, 0, i);
    let s = cfg.subscribers@[i];
    if s.secret_env is Some {
        let t = reads[i].env->0@;
        assert(t.len() > 0);
        lemma_encoding_nonempty(t);
    }
}

proof fn lemma_encoding_nonempty(t: Seq<char>)
    requires
        t.len() > 0,
    ensures
        encode_utf8(t).len() > 0,
{
    encode_utf8_decode_utf8(t);
    if encode_utf8(t).len() == 0 {
        assert(decode_utf8(encode_utf8(t)).len() == 0);
    }
}

/// White space at the end of a secret is taken off, however much of it there is, and
/// nothing else.
pub proof fn law_trailing_space_is_taken_off(m: Seq<u8>, space: Seq<u8>)
    requires
        forall|i: int|
            0 <= i < space.len() ==> #[trigger] space[i] == 9 || space[i] == 10 || space[i] == 13
                || space[i] == 32,
        m.len() > 0 ==> m.last() != 9 && m.last() != 10 && m.last() != 13 && m.last() != 32,
    ensures
        trimmed(m + space) == m,
    decreases space.len(),
{
    let s = m + space;
    if space.len() == 0 {
        assert(s =~= m);
    } else {
        assert(is_trailing(space[space.len() - 1]));
        assert(s.last() == space.last());
        assert(s.drop_last() =~= m + space.drop_last());
        law_trailing_space_is_taken_off(m, space.drop_last());
    }
}

proof fn lemma_trimmed_is_empty(b: Seq<u8>)
    ensures
        trimmed(b).len() == 0 <==> forall|k: int| 0 <= k < b.len() ==> is_trailing(#[trigger] b[k]),
    decreases b.len(),
{
    if b.len() > 0 {
        let front = b.drop_last();
        lemma_trimmed_is_empty(front);
        assert(b.last() == b[b.len() - 1]);
        if is_trailing(b.last()) {
            if trimmed(front).len() == 0 {
                assert forall|k: int| 0 <= k < b.len() implies is_trailing(#[trigger] b[k]) by {
                    if k < b.len() - 1 {
                        assert(b[k] == front[k]);
                    }
                }
            } else {
                let k = choose|k: int| 0 <= k < front.len() && !is_trailing(#[trigger] front[k]);
                assert(!is_trailing(b[k]));
            }
        }
    }
}

/// A subscriber names one place for its secret, and a secret is there.
pub open spec fn has_secret(s: SubscriberConfig, r: SecretReads) -> bool {
    match (s.secret_env, s.secret_file) {
        (Some(_), None) => r.env is Some && r.env->0@.len() > 0,
        (None, Some(_)) => r.file is Ok && exists|k: int|
            0 <= k < r.file->Ok_0@.len() && {
                let b = #[trigger] r.file->Ok_0@[k];
                b != 9 && b != 10 && b != 13 && b != 32
            },
        _ => false,
    }
}

/// A subscriber that can be delivered to: over HTTP, with a secret, at least once, and with
/// delays in order.
pub open spec fn is_usable(s: SubscriberConfig, r: SecretReads) -> bool {
    &&& text::has_prefix(s.url@, "http://"@) || text::has_prefix(s.url@, "https://"@)
    &&& has_secret(s, r)
    &&& s.retry.max_attempts >= 1
    &&& s.retry.base_delay_ms <= s.retry.max_delay_ms
}

proof fn lemma_usable(s: SubscriberConfig, r: SecretReads)
    ensures
        subscriber_problem(s, r) is None <==> is_usable(s, r),
{
    if r.file is Ok {
        let b = r.file->Ok_0@;
        lemma_trimmed_is_empty(b);
        if trimmed(b).len() > 0 {
            let k = choose|k: int| 0 <= k < b.len() && !is_trailing(#[trigger] b[k]);
            assert(0 <= k < b.len() && !is_trailing(b[k]));
            assert(b[k] != 9 && b[k] != 10 && b[k] != 13 && b[k] != 32);
        }
    }
}

/// The problem that is told is that of the first subscriber with which anything is wrong,
/// wherever it stands.
pub proof fn law_first_faulty_subscriber_is_told(
    subs: Seq<SubscriberConfig>,
    reads: Seq<SecretReads>,
    from: int,
    i: int,
)
    requires
        0 <= from <= i < subs.len(),
        !is_usable(subs[i], reads[i]),
        forall|j: int| from <= j < i ==> is_usable(#[trigger] subs[j], reads[j]),
    ensures
        subscribers_problem(subs, reads, from) == subscriber_problem(subs[i], reads[i]),
        subscribers_problem(subs, reads, from) is Some,
    decreases i - from,
{
    lemma_usable(subs[i], reads[i]);
    if from < i {
        assert(is_usable(subs[from], reads[from]));
        lemma_usable(subs[from], reads[from]);
        law_first_faulty_subscriber_is_told(subs, reads, from + 1, i);
    }
}

/// The name that is told as taken is the first that stood before, wherever it stands.
pub proof fn law_first_taken_name_is_told(subs: Seq<SubscriberConfig>, from: int, i: int, k: int)
    requires
        0 <= from <= i < subs.len(),
        0 <= k < i,
        subs[k].id@ == subs[i].id@,
        forall|a: int, b: int|
            0 <= a < b < i ==> (#[trigger] subs[a]).id@ != (#[trigger] subs[b]).id@,
    ensures
        repeated_problem(subs, from) == Some(Problem::DuplicateSubscriber(subs[i].id@)),
    decreases i - from,
{
    if from < i {
        assert(!is_repeated(subs, from));
        law_first_taken_name_is_told(subs, from + 1, i, k);
    } else {
        assert(is_repeated(subs, i));
    }
}

proof fn lemma_none_repeated(subs: Seq<SubscriberConfig>, from: int)
    requires
        0 <= from,
        forall|a: int, b: int|
            0 <= a < b < subs.len() ==> (#[trigger] subs[a]).id@ != (#[trigger] subs[b]).id@,
    ensures
        repeated_problem(subs, from) is None,
    decreases subs.len() - from,
{
    if from < subs.len() {
        assert(!is_repeated(subs, from));
        lemma_none_repeated(subs, from + 1);
    }
}

proof fn lemma_all_usable(subs: Seq<SubscriberConfig>, reads: Seq<SecretReads>, from: int)
    requires
        0 <= from,
        forall|j: int| 0 <= j < subs.len() ==> is_usable(#[trigger] subs[j], reads[j]),
    ensures
        subscribers_problem(subs, reads, from) is None,
    decreases subs.len() - from,
{
    if from < subs.len() {
        assert(is_usable(subs[from], reads[from]));
        lemma_usable(subs[from], reads[from]);
        lemma_all_usable(subs, reads, from + 1);
    }
}

/// A configuration is accepted just when it has a source, a queue with room, subscribers
/// that are all usable and named apart, and an admin token that is there if one is asked
/// for.
pub proof fn law_accepted_just_when_usable(
    cfg: Config,
    reads: Seq<SecretReads>,
    token: TokenReads,
)
    ensures
        config_problem(cfg, reads, token) is None <==> {
            &&& cfg.sources@.len() > 0
            &&& cfg.relay.subscriber_queue > 0
            &&& forall|a: int, b: int|
                0 <= a < b < cfg.subscribers@.len() ==> (#[trigger] cfg.subscribers@[a]).id@ != (
                #[trigger] cfg.subscribers@[b]).id@
            &&& forall|j: int|
                0 <= j < cfg.subscribers@.len() ==> is_usable(
                    #[trigger] cfg.subscribers@[j],
                    reads[j],
                )
            &&& match (cfg.relay.admin_token_env, cfg.relay.admin_token_file) {
                (None, None) => true,
                (Some(_), None) => token.env is Some && token.env->0@.len() > 0,
                (None, Some(_)) => token.file is Ok && text::trim(token.file->Ok_0@).len() > 0,
                (Some(_), Some(_)) => false,
            }
        },
{
    let subs = cfg.subscribers@;
    if config_problem(cfg, reads, token) is None {
        assert forall|a: int, b: int| 0 <= a < b < subs.len() implies (#[trigger] subs[a]).id@ != (
        #[trigger] subs[b]).id@ by {
            law_accepted_names_are_distinct(cfg, reads, token, a, b);
        }
        assert forall|j: int| 0 <= j < subs.len() implies is_usable(
            #[trigger] subs[j],
            reads[j],
        ) by {
            lemma_no_subscriber_problem(subs, reads, 0, j);
            lemma_usable(subs[j], reads[j]);
        }
    }
    if (forall|a: int, b: int|
        0 <= a < b < subs.len() ==> (#[trigger] subs[a]).id@ != (#[trigger] subs[b]).id@) {
        lemma_none_repeated(subs, 0);
    }
    if (forall|j: int| 0 <= j < subs.len() ==> is_usable(#[trigger] subs[j], reads[j])) {
        lemma_all_usable(subs, reads, 0);
    }
}

/// The relay's name is the configured one; else the machine's, unless that is empty; else
/// its own.
pub proof fn law_relay_has_a_name(relay: RelayConfig, machine: Seq<char>)
    ensures
        relay.instance_id matches Some(id) ==> instance_name(relay, Some(machine)) == id@
            && instance_name(relay, None) == id@,
        relay.instance_id is None && machine.len() > 0 ==> instance_name(relay, Some(machine))
            == machine,
        relay.instance_id is None && machine.len() == 0 ==> instance_name(relay, Some(machine))
            == "purple-wolf-relay"@,
        relay.instance_id is None ==> instance_name(relay, None) == "purple-wolf-relay"@,
{
}

/// A secret out of the environment is taken as it is; one out of a file without the white
/// space at its end. The admin token out of a file is taken without any around it.
pub proof fn law_secrets_are_taken_from_their_place(
    s: SubscriberConfig,
    r: SecretReads,
    relay: RelayConfig,
    t: TokenReads,
    m: Seq<u8>,
    space: Seq<u8>,
)
    requires
        forall|i: int|
            0 <= i < space.len() ==> #[trigger] space[i] == 9 || space[i] == 10 || space[i] == 13
                || space[i] == 32,
        m.len() > 0,
        m.last() != 9 && m.last() != 10 && m.last() != 13 && m.last() != 32,
    ensures
        s.secret_env is Some && r.env is Some ==> secret_of(s, r) == encode_utf8(r.env->0@),
        s.secret_env is None && r.file is Ok && r.file->Ok_0@ == m + space ==> secret_of(s, r) == m,
        relay.admin_token_env is None && relay.admin_token_file is None ==> token_of(relay, t)
            is None,
        relay.admin_token_env is Some && t.env is Some ==> token_of(relay, t) == Some(
            encode_utf8(t.env->0@),
        ),
        relay.admin_token_env is None && relay.admin_token_file is Some && t.file is Ok ==> token_of(
            relay,
            t,
        ) == Some(encode_utf8(text::trim(t.file->Ok_0@))),
{
    law_trailing_space_is_taken_off(m, space);
}

/// Every subscriber gets its own secret under its own name, wherever it stands.
pub proof fn law_each_subscriber_gets_its_secret(
    secrets: Seq<(String, Secret)>,
    subs: Seq<SubscriberConfig>,
    reads: Seq<SecretReads>,
    i: int,
)
    requires
        are_secrets_of(secrets, subs, reads),
        0 <= i < subs.len(),
    ensures
        secrets.len() == subs.len(),
        secrets[i].0@ == subs[i].id@,
        secrets[i].1@ == secret_of(subs[i], reads[i]),
{
}

/// What is wrong with a subscriber is told of it by its name.
pub proof fn law_problem_names_the_subscriber(s: SubscriberConfig, r: SecretReads)
    requires
        subscriber_problem(s, r) is Some,
    ensures
        ({
            let start = "subscriber "@ + text::debug_quoted(s.id@);
            let told = problem_text(subscriber_problem(s, r)->0);
            &&& told.len() > start.len()
            &&& told.take(start.len() as int) == start
        }),
{
    let start = "subscriber "@ + text::debug_quoted(s.id@);
    let told = problem_text(subscriber_problem(s, r)->0);
    reveal_strlit(": url ");
    reveal_strlit(": only one of secret_env / secret_file may be set");
    reveal_strlit(": one of secret_env / secret_file must be set");
    reveal_strlit(": env var ");
    reveal_strlit(": reading secret_file ");
    reveal_strlit(": secret_file ");
    reveal_strlit(": retry.max_attempts must be \u{2265} 1");
    reveal_strlit(": retry.base_delay_ms (");
    assert(told.take(start.len() as int) =~= start);
}

} // verus!
