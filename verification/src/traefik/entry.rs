//! What the guest does with a request.
use vstd::prelude::*;

use crate::audit;
use crate::audit::{to_log_line, AuditEntry, AuditModel};
use crate::config as settings;
use crate::config::{Config, FailMode, GroupMode, OverCap, ReputationConfig};
use crate::detectors;
use crate::detectors::injection;
use crate::detectors::injection::InjectionDetector;
use crate::detectors::reputation;
use crate::detectors::reputation::{Bucket, ReputationDetector};
use crate::detectors::signatures::SignatureDetector;
use crate::detectors::structural::StructuralDetector;
use crate::detectors::{BuiltDetector, Detector, Engine, Group, Verdict, VerdictView};
use crate::ip;
use crate::ip::{parse_ip, IpAddr};
use crate::policy;
use crate::policy::{Action, Decision};
use crate::request;
use crate::request::{client_ip, Pair, Request, RequestModel};
use crate::text;
use crate::text::{chars_of, copy_text, find_char, join3, same_text, text_between, to_lower, trim_text};
use crate::traefik::config;
use crate::traefik::config::fallback;
use crate::traefik::host::{BodyRead, BodyReadError};

verus! {

// ---------------------------------------------------------------------------
// Groups
// ---------------------------------------------------------------------------
/// The level at which a group runs.
pub fn effective_group_mode(cfg: &Config, g: Group) -> (r: GroupMode)
    ensures
        r == settings::effective_mode(cfg.groups, g),
{
    cfg.groups.effective_mode_of(g)
}

/// The level of each group.
#[derive(Debug, Clone, Copy, PartialEq, Eq, Structural)]
pub struct EffectiveGroupModes {
    pub injection: GroupMode,
    pub signatures: GroupMode,
    pub structural: GroupMode,
    pub reputation: GroupMode,
}

impl EffectiveGroupModes {
    /// The level of a group.
    pub open spec fn mode_of(self, g: Group) -> GroupMode {
        match g {
            Group::Injection => self.injection,
            Group::Signatures => self.signatures,
            Group::Structure => self.structural,
            Group::Reputation => self.reputation,
        }
    }

    /// The levels that a configuration sets.
    pub fn from_config(cfg: &Config) -> (r: EffectiveGroupModes)
        ensures
            forall|g: Group| #[trigger] r.mode_of(g) == settings::effective_mode(cfg.groups, g),
    {
        EffectiveGroupModes {
            injection: effective_group_mode(cfg, Group::Injection),
            signatures: effective_group_mode(cfg, Group::Signatures),
            structural: effective_group_mode(cfg, Group::Structure),
            reputation: effective_group_mode(cfg, Group::Reputation),
        }
    }

    /// The level of a group.
    pub fn get(self, group: Group) -> (r: GroupMode)
        ensures
            r == self.mode_of(group),
    {
        match group {
            Group::Injection => self.injection,
            Group::Signatures => self.signatures,
            Group::Structure => self.structural,
            Group::Reputation => self.reputation,
        }
    }

    /// The groups that run, in their order.
    pub open spec fn running(self) -> Seq<Group> {
        unless_off(self.injection, Group::Injection) + unless_off(
            self.signatures,
            Group::Signatures,
        ) + unless_off(self.structural, Group::Structure) + unless_off(
            self.reputation,
            Group::Reputation,
        )
    }

    /// The groups that run, in their order.
    pub fn enabled_groups(self) -> (r: Vec<Group>)
        ensures
            r@ == self.running(),
    {
        let mut out: Vec<Group> = Vec::new();
        if self.injection != GroupMode::Off {
            out.push(Group::Injection);
        }
        if self.signatures != GroupMode::Off {
            out.push(Group::Signatures);
        }
        if self.structural != GroupMode::Off {
            out.push(Group::Structure);
        }
        if self.reputation != GroupMode::Off {
            out.push(Group::Reputation);
        }
        assert(out@ =~= self.running());
        out
    }
}

pub open spec fn unless_off(m: GroupMode, g: Group) -> Seq<Group> {
    if m == GroupMode::Off {
        Seq::empty()
    } else {
        seq![g]
    }
}

// ---------------------------------------------------------------------------
// Detectors
// ---------------------------------------------------------------------------
/// The addresses among some texts.
pub open spec fn addresses(list: Seq<Seq<char>>) -> Seq<IpAddr>
    decreases list.len(),
{
    if list.len() == 0 {
        Seq::empty()
    } else {
        let front = addresses(list.drop_last());
        match ip::ip_of(list.last()) {
            Some(a) => front.push(a),
            None => front,
        }
    }
}

/// The addresses among some texts; what is no address is left out.
pub fn parse_deny_list(list: &Vec<String>) -> (r: Vec<IpAddr>)
    ensures
        r@ == addresses(text::texts(list@)),
{
    let ghost all = text::texts(list@);
    let mut out: Vec<IpAddr> = Vec::new();
    let mut i: usize = 0;
    assert(all.take(0) =~= Seq::<Seq<char>>::empty());
    while i < list.len()
        invariant
            i <= list@.len(),
            all == text::texts(list@),
            out@ == addresses(all.take(i as int)),
        decreases list@.len() - i,
    {
        assert(all.take(i + 1).drop_last() =~= all.take(i as int));
        assert(all.take(i + 1).last() == list@[i as int]@);
        if let Some(a) = parse_ip(&list[i]) {
            out.push(a);
        }
        i = i + 1;
    }
    assert(all.take(i as int) =~= all);
    out
}

/// A reputation detector as it is at the start.
pub open spec fn is_fresh(r: ReputationDetector, cfg: ReputationConfig) -> bool {
    &&& r.valid()
    &&& r.deny_list@ == addresses(text::texts(cfg.deny_list@))
    &&& r.state.buckets() == Seq::<Bucket>::empty()
    &&& r.state.capacity() == if cfg.max_tracked_ips == 0 {
        1
    } else {
        cfg.max_tracked_ips as nat
    }
    &&& r.state.quota() == if cfg.per_second == 0 {
        1
    } else {
        cfg.per_second as nat
    }
}

/// Whether a detector is the one for a group, as it is at the start.
pub open spec fn is_detector_for(d: BuiltDetector, g: Group, cfg: ReputationConfig) -> bool {
    &&& d.valid()
    &&& match g {
        Group::Injection => d is Injection,
        Group::Signatures => d is Signatures,
        Group::Structure => d is Structure,
        Group::Reputation => d matches BuiltDetector::Reputation(r) && is_fresh(r, cfg),
    }
}

fn detector_for(g: Group, cfg: &Config) -> (r: BuiltDetector)
    ensures
        is_detector_for(r, g, cfg.reputation),
{
    match g {
        Group::Injection => BuiltDetector::Injection(InjectionDetector),
        Group::Signatures => BuiltDetector::Signatures(SignatureDetector::new()),
        Group::Structure => BuiltDetector::Structure(StructuralDetector),
        Group::Reputation => BuiltDetector::Reputation(
            ReputationDetector::with_capacity(
                cfg.reputation.per_second,
                parse_deny_list(&cfg.reputation.deny_list),
                cfg.reputation.max_tracked_ips,
            ),
        ),
    }
}

/// An engine with the detectors of these groups, and no others.
pub fn engine(cfg: &Config, enabled_groups: &[Group]) -> (r: Engine<BuiltDetector>)
    ensures
        r.detectors@.len() == enabled_groups@.len(),
        forall|i: int|
            0 <= i < enabled_groups@.len() ==> is_detector_for(
                #[trigger] r.detectors@[i],
                enabled_groups@[i],
                cfg.reputation,
            ),
        detectors::all_valid(r.detectors@),
{
    let mut list: Vec<BuiltDetector> = Vec::new();
    let mut i: usize = 0;
    let n: usize = enabled_groups.len();
    while i < n
        invariant
            i <= n,
            n == enabled_groups@.len(),
            list@.len() == i,
            forall|k: int|
                0 <= k < i ==> is_detector_for(
                    #[trigger] list@[k],
                    enabled_groups@[k],
                    cfg.reputation,
                ),
        decreases n - i,
    {
        list.push(detector_for(enabled_groups[i], cfg));
        i = i + 1;
    }
    Engine::new(list)
}

// ---------------------------------------------------------------------------
// The guest's state
// ---------------------------------------------------------------------------
/// What the guest holds.
pub struct PluginState {
    /// The configuration.
    pub cfg: Config,
    /// The detectors.
    pub engine: Engine<BuiltDetector>,
    /// Whether the configuration could not be used.
    pub fallback: bool,
    /// The groups that run.
    pub enabled_groups: Vec<Group>,
    /// The level of each group.
    pub group_modes: EffectiveGroupModes,
}

impl PluginState {
    /// The groups and their levels are those of the configuration, and every
    /// running group has its detector.
    pub open spec fn wf(&self) -> bool {
        &&& forall|g: Group| #[trigger]
            self.group_modes.mode_of(g) == settings::effective_mode(self.cfg.groups, g)
        &&& self.enabled_groups@ == self.group_modes.running()
        &&& self.engine.detectors@.len() == self.enabled_groups@.len()
        &&& forall|i: int|
            0 <= i < self.enabled_groups@.len() ==> (
            #[trigger] self.engine.detectors@[i]).group_spec() == self.enabled_groups@[i]
        &&& detectors::all_valid(self.engine.detectors@)
        &&& self.cfg.labels.wf()
        &&& self.fallback ==> config::is_fallback(self.cfg)
    }

    /// Every detector is as it is at the start.
    pub open spec fn is_new(&self) -> bool {
        forall|i: int|
            0 <= i < self.enabled_groups@.len() ==> is_detector_for(
                #[trigger] self.engine.detectors@[i],
                self.enabled_groups@[i],
                self.cfg.reputation,
            )
    }

    /// The state for a configuration that was read, and what to log. A
    /// configuration that cannot be used is replaced by one that reports
    /// everything and blocks nothing.
    pub fn start(parsed: Result<Config, String>) -> (r: (PluginState, Option<String>))
        requires
            parsed matches Ok(c) ==> c.labels.wf(),
        ensures
            r.0.wf(),
            r.0.is_new(),
            match parsed {
                Ok(c) => !r.0.fallback && r.0.cfg == c && r.1 is None,
                Err(e) => {
                    &&& r.0.fallback
                    &&& config::is_fallback(r.0.cfg)
                    &&& r.1 is Some
                    &&& r.1->0@ == fallback_notice(e@)
                },
            },
    {
        let (cfg, failed, notice) = match parsed {
            Ok(c) => (c, false, None),
            Err(e) => (
                fallback(),
                true,
                Some(
                    join3(
                        "purple-wolf: invalid Middleware config (",
                        &e,
                        "); falling back to global monitor mode — every detector enabled in monitor; verdicts will appear in audit logs but the WAF will not block. Reload Traefik with a valid config to enable enforcement.",
                    ),
                ),
            ),
        };
        let group_modes = EffectiveGroupModes::from_config(&cfg);
        let enabled_groups = group_modes.enabled_groups();
        let engine = engine(&cfg, &enabled_groups);
        (PluginState { cfg, engine, fallback: failed, enabled_groups, group_modes }, notice)
    }
}

/// What is logged about a configuration that cannot be used.
pub open spec fn fallback_notice(error: Seq<char>) -> Seq<char> {
    "purple-wolf: invalid Middleware config ("@ + error
        + "); falling back to global monitor mode — every detector enabled in monitor; verdicts will appear in audit logs but the WAF will not block. Reload Traefik with a valid config to enable enforcement."@
}

// ---------------------------------------------------------------------------
// The peer's address
// ---------------------------------------------------------------------------
/// A text without the opening brackets at its start.
pub open spec fn without_open(s: Seq<char>) -> Seq<char>
    decreases s.len(),
{
    if s.len() > 0 && s[0] == '[' {
        without_open(s.skip(1))
    } else {
        s
    }
}

/// A text without the closing brackets at its end.
pub open spec fn without_close(s: Seq<char>) -> Seq<char>
    decreases s.len(),
{
    if s.len() > 0 && s.last() == ']' {
        without_close(s.drop_last())
    } else {
        s
    }
}

/// A text without the brackets around it.
pub open spec fn unbracketed(s: Seq<char>) -> Seq<char> {
    without_close(without_open(s))
}

/// The first of two addresses that is there.
pub open spec fn or_address(a: Option<IpAddr>, b: Option<IpAddr>) -> Option<IpAddr> {
    if a is Some {
        a
    } else {
        b
    }
}

/// The address of a peer: the text itself, or what stands before its last colon,
/// with or without brackets; the unspecified address if there is none.
pub open spec fn peer_address(addr: Seq<char>) -> IpAddr {
    let a = text::trim(addr);
    let before_port = match injection::last_index(a, ':') {
        Some(i) => or_address(ip::ip_of(a.take(i)), ip::ip_of(unbracketed(a.take(i)))),
        None => None,
    };
    match or_address(ip::ip_of(a), or_address(before_port, ip::ip_of(unbracketed(a)))) {
        Some(p) => p,
        None => IpAddr::V4(0),
    }
}

fn unbracket(s: &Vec<char>, to: usize) -> (r: String)
    requires
        to <= s@.len(),
    ensures
        r@ == unbracketed(s@.take(to as int)),
{
    let ghost whole = s@.take(to as int);
    let mut from: usize = 0;
    assert(s@.subrange(0, to as int) =~= whole);
    while from < to && s[from] == '['
        invariant
            from <= to <= s@.len(),
            without_open(whole) == without_open(s@.subrange(from as int, to as int)),
        decreases to - from,
    {
        let ghost here = s@.subrange(from as int, to as int);
        assert(here[0] == s@[from as int]);
        assert(here.skip(1) =~= s@.subrange(from + 1, to as int));
        from = from + 1;
    }
    assert(from < to ==> s@.subrange(from as int, to as int)[0] == s@[from as int]);
    let ghost open = s@.subrange(from as int, to as int);
    assert(without_open(whole) == open);
    let mut end: usize = to;
    while end > from && s[end - 1] == ']'
        invariant
            from <= end <= to <= s@.len(),
            without_close(open) == without_close(s@.subrange(from as int, end as int)),
        decreases end,
    {
        let ghost here = s@.subrange(from as int, end as int);
        assert(here.last() == s@[end - 1]);
        assert(here.drop_last() =~= s@.subrange(from as int, end - 1));
        end = end - 1;
    }
    assert(end > from ==> s@.subrange(from as int, end as int).last() == s@[end - 1]);
    text_between(s, from, end)
}

fn last_colon(s: &Vec<char>) -> (r: Option<usize>)
    ensures
        match r {
            Some(i) => i < s@.len() && injection::last_index(s@, ':') == Some(i as int),
            None => injection::last_index(s@, ':') is None,
        },
{
    let mut i: usize = s.len();
    assert(s@.take(i as int) =~= s@);
    while i > 0
        invariant
            i <= s@.len(),
            injection::last_index(s@, ':') == injection::last_index(s@.take(i as int), ':'),
        decreases i,
    {
        assert(s@.take(i as int).last() == s@[i - 1]);
        assert(s@.take(i as int).drop_last() =~= s@.take(i - 1));
        if s[i - 1] == ':' {
            return Some(i - 1);
        }
        i = i - 1;
    }
    None
}

/// The address of a peer that the host names.
pub fn parse_peer(addr: &str) -> (r: IpAddr)
    ensures
        r == peer_address(addr@),
{
    let a = trim_text(addr);
    if let Some(p) = parse_ip(&a) {
        return p;
    }
    let c = chars_of(&a);
    if let Some(i) = last_colon(&c) {
        let host = text_between(&c, 0, i);
        assert(host@ =~= a@.take(i as int));
        if let Some(p) = parse_ip(&host) {
            return p;
        }
        if let Some(p) = parse_ip(&unbracket(&c, i)) {
            return p;
        }
    }
    assert(c@.take(c@.len() as int) =~= a@);
    if let Some(p) = parse_ip(&unbracket(&c, c.len())) {
        return p;
    }
    IpAddr::V4(0)
}

// ---------------------------------------------------------------------------
// Before the inspection
// ---------------------------------------------------------------------------
/// The path and the query of an address.
pub open spec fn uri_parts(uri: Seq<char>) -> (Seq<char>, Seq<char>) {
    match text::first_index(uri, '?') {
        Some(i) => (uri.take(i), uri.skip(i + 1)),
        None => (uri, Seq::empty()),
    }
}

/// The path and the query of an address.
pub fn split_uri(uri: &str) -> (r: (String, String))
    ensures
        (r.0@, r.1@) == uri_parts(uri@),
{
    let c = chars_of(uri);
    match find_char(&c, '?') {
        Some(i) => {
            proof {
                text::lemma_first_index(uri@, '?');
            }
            let path = text_between(&c, 0, i);
            let query = text_between(&c, i + 1, c.len());
            assert(path@ =~= uri@.take(i as int));
            assert(query@ =~= uri@.skip(i + 1));
            (path, query)
        },
        None => (copy_text(uri), String::new()),
    }
}

/// A header as the host gives it: a name, and its value if there is one.
pub type RawHeader = (Seq<char>, Option<Seq<char>>);

/// Headers as the host gives them.
pub open spec fn raw_headers(v: Seq<(String, Option<String>)>) -> Seq<RawHeader> {
    v.map_values(|h: (String, Option<String>)| (h.0@, audit::opt_view(h.1)))
}

/// The headers that have a value, with their names in lower case.
pub open spec fn kept_headers(raw: Seq<RawHeader>) -> Seq<Pair>
    decreases raw.len(),
{
    if raw.len() == 0 {
        Seq::empty()
    } else {
        let front = kept_headers(raw.drop_last());
        match raw.last().1 {
            Some(v) => front.push((text::lower(raw.last().0), v)),
            None => front,
        }
    }
}

/// The headers that have a value, with their names in lower case.
pub fn collect_headers(raw: Vec<(String, Option<String>)>) -> (r: Vec<(String, String)>)
    ensures
        request::pairs(r@) == kept_headers(raw_headers(raw@)),
{
    let ghost all = raw_headers(raw@);
    let mut out: Vec<(String, String)> = Vec::new();
    assert(request::pairs(out@) =~= kept_headers(all.take(0)));
    for (name, value) in it: raw
        invariant
            it.seq() == raw@,
            all == raw_headers(raw@),
            request::pairs(out@) == kept_headers(all.take(it.index() as int)),
    {
        let ghost n = it.index() as int;
        let ghost before = request::pairs(out@);
        assert(all.take(n + 1).drop_last() =~= all.take(n));
        assert(all.take(n + 1).last() == (name@, audit::opt_view(value)));
        if let Some(v) = value {
            let lowered = to_lower(&name);
            let ghost pair: Pair = (lowered@, v@);
            out.push((lowered, v));
            assert(request::pairs(out@) =~= before.push(pair));
        }
    }
    assert(all.take(all.len() as int) =~= all);
    out
}

/// The value of the first header of just that name, or nothing.
pub open spec fn exact_value(headers: Seq<Pair>, name: Seq<char>) -> Seq<char>
    decreases headers.len(),
{
    if headers.len() == 0 {
        Seq::empty()
    } else if headers[0].0 == name {
        headers[0].1
    } else {
        exact_value(headers.skip(1), name)
    }
}

fn first_value(headers: &Vec<(String, String)>, name: &str) -> (r: String)
    ensures
        r@ == exact_value(request::pairs(headers@), name@),
{
    let ghost all = request::pairs(headers@);
    let mut i: usize = 0;
    assert(all.skip(0) =~= all);
    while i < headers.len()
        invariant
            i <= headers@.len(),
            all == request::pairs(headers@),
            exact_value(all, name@) == exact_value(all.skip(i as int), name@),
        decreases headers@.len() - i,
    {
        assert(all.skip(i as int)[0] == (headers@[i as int].0@, headers@[i as int].1@));
        if same_text(&headers[i].0, name) {
            return copy_text(&headers[i].1);
        }
        assert(all.skip(i as int).skip(1) =~= all.skip(i + 1));
        i = i + 1;
    }
    let none = String::new();
    assert(none@ =~= Seq::<char>::empty());
    none
}

/// What the host gives of a request.
#[derive(Debug)]
pub struct RawRequest {
    /// The method.
    pub method: String,
    /// The path and the query.
    pub uri: String,
    /// The headers.
    pub headers: Vec<(String, Option<String>)>,
    /// The peer.
    pub source_addr: String,
}

/// A response that the guest writes itself.
#[derive(Debug, Clone, Copy, PartialEq, Eq)]
pub struct Refusal {
    /// The status.
    pub status: u16,
    /// The body.
    pub body: &'static str,
}

/// What to do before the inspection.
#[derive(Debug)]
pub enum Prepared {
    /// Let the request pass.
    Pass,
    /// Answer the request.
    Refuse(Refusal),
    /// Inspect the request.
    Inspect(Request),
}

/// Why a request is refused before the inspection, or let pass without one.
pub enum Early {
    Pass,
    Refuse(Seq<char>),
}

/// What the body alone decides.
pub open spec fn body_decides(cfg: Config, body: Result<BodyRead, BodyReadError>) -> Option<Early> {
    match body {
        Err(e) => if e != BodyReadError::BufferingUnsupported {
            Some(Early::Refuse("request body could not be preserved"@))
        } else if cfg.fail_mode == FailMode::FailOpen {
            Some(Early::Pass)
        } else {
            Some(Early::Refuse("inspection failed (fail_closed)"@))
        },
        Ok(b) => if b.exceeded && cfg.body.over_cap == OverCap::Block {
            Some(Early::Refuse("body exceeds inspection cap"@))
        } else {
            None
        },
    }
}

/// The request that is inspected.
pub open spec fn inspected_request(cfg: Config, raw: RawRequest, body: BodyRead) -> RequestModel {
    let headers = kept_headers(raw_headers(raw.headers@));
    let (path, query) = uri_parts(raw.uri@);
    RequestModel {
        body_truncated: body.exceeded,
        ..request::normalized(
            raw.method@,
            exact_value(headers, "host"@),
            path,
            query,
            headers,
            body.bytes@,
            body.bytes@.len() > 0,
            request::client_address(
                headers,
                peer_address(raw.source_addr@),
                cfg.xff.trusted_hops as nat,
            ),
        )
    }
}

/// What to do before the inspection: the body may already decide.
pub fn prepare(cfg: &Config, raw: RawRequest, body: Result<BodyRead, BodyReadError>) -> (r: Prepared)
    ensures
        match body_decides(*cfg, body) {
            Some(Early::Pass) => r is Pass,
            Some(Early::Refuse(why)) => r matches Prepared::Refuse(x) && x.status == 403 && x.body@
                == why,
            None => r matches Prepared::Inspect(q) && q@ == inspected_request(*cfg, raw, body->Ok_0),
        },
{
    let read = match body {
        Ok(b) => b,
        Err(e) => {
            if !e.forwarding_is_safe() {
                return Prepared::Refuse(
                    Refusal { status: 403, body: "request body could not be preserved" },
                );
            }
            return match cfg.fail_mode {
                FailMode::FailOpen => Prepared::Pass,
                FailMode::FailClosed => Prepared::Refuse(
                    Refusal { status: 403, body: "inspection failed (fail_closed)" },
                ),
            };
        },
    };
    if read.exceeded && cfg.body.over_cap == OverCap::Block {
        return Prepared::Refuse(Refusal { status: 403, body: "body exceeds inspection cap" });
    }
    let headers = collect_headers(raw.headers);
    let peer = parse_peer(&raw.source_addr);
    let source_ip = client_ip(&headers, peer, cfg.xff.trusted_hops);
    let (path, query) = split_uri(&raw.uri);
    let host = first_value(&headers, "host");
    let body_inspected = read.bytes.len() > 0;
    let q = Request::build(
        &raw.method,
        &host,
        &path,
        &query,
        headers,
        read.bytes,
        body_inspected,
        source_ip,
    ).with_truncated_body(read.exceeded);
    Prepared::Inspect(q)
}

// ---------------------------------------------------------------------------
// The inspection
// ---------------------------------------------------------------------------
/// What an inspection comes to.
#[derive(Debug)]
pub struct Outcome {
    /// Whether the request proceeds.
    pub action: Action,
    /// What to log.
    pub log: Option<String>,
    /// What to answer, if the request does not proceed.
    pub refusal: Option<Refusal>,
}

/// The levels of the groups of some verdicts.
pub open spec fn modes_for(vs: Seq<Verdict>, m: EffectiveGroupModes) -> Seq<GroupMode> {
    Seq::new(vs.len(), |i: int| m.mode_of(vs[i].group))
}

/// Whether a decision is worth a log line. Under a configuration that could not be
/// used, every request is.
pub open spec fn is_noteworthy(d: Decision, in_fallback: bool) -> bool {
    d.blocked_by is Some || d.would_block@.len() > 0 || in_fallback
}

/// Whether a decision is worth a log line.
pub fn decision_is_noteworthy(decision: &Decision, in_fallback: bool) -> (r: bool)
    ensures
        r == is_noteworthy(*decision, in_fallback),
{
    decision.blocked_by.is_some() || decision.would_block.len() > 0 || in_fallback
}

/// The audit entry for a decision on a request: it carries the operator's labels,
/// and it says so where the configuration could not be used.
pub open spec fn logged_entry(state: PluginState, req: RequestModel, d: Decision) -> AuditModel {
    AuditModel {
        config_fallback: state.fallback,
        ..audit::entry_for(req, d, request::pairs(state.cfg.labels.entries@))
    }
}

/// What a decision on a request comes to.
pub open spec fn comes_to(state: PluginState, req: RequestModel, d: Decision, o: Outcome) -> bool {
    &&& o.action == d.action
    &&& audit::opt_view(o.log) == if is_noteworthy(d, state.fallback) {
        Some(audit::log_line(logged_entry(state, req, d)))
    } else {
        None
    }
    &&& match d.action {
        Action::Allow => o.refusal is None,
        Action::Block => o.refusal matches Some(x) && x.status == 403 && x.body@
            == "request blocked by purple-wolf"@,
    }
}

/// The verdicts are those that the detectors may give, `after` holds the detectors
/// as they then are, and the decision is the one on the verdicts.
pub open spec fn is_decision(
    before: PluginState,
    req: RequestModel,
    vs: Seq<Verdict>,
    d: Decision,
    after: Engine<BuiltDetector>,
) -> bool {
    &&& exists|parts: Seq<Seq<VerdictView>>|
        #![trigger detectors::concatenated(parts)]
        detectors::may_run(
            before.engine.detectors@,
            req,
            before.enabled_groups@,
            parts,
            after.detectors@,
        ) && detectors::verdict_views(vs) == detectors::concatenated(parts)
    &&& policy::decides(vs, modes_for(vs, before.group_modes), before.cfg.mode, d)
}

impl PluginState {
    /// Inspects a request and decides on it.
    pub fn inspect(&mut self, req: &Request) -> (r: Outcome)
        requires
            old(self).wf(),
        ensures
            final(self).wf(),
            final(self).cfg == old(self).cfg,
            final(self).fallback == old(self).fallback,
            final(self).group_modes == old(self).group_modes,
            final(self).enabled_groups == old(self).enabled_groups,
            exists|vs: Seq<Verdict>, d: Decision| #[trigger]
                is_decision(*old(self), req@, vs, d, final(self).engine) && comes_to(
                    *old(self),
                    req@,
                    d,
                    r,
                ),
    {
        let ghost before = *self;
        let verdicts = self.engine.inspect(req, &self.enabled_groups);
        let ghost vs = verdicts@;
        let modes = self.group_modes;
        let group_mode = |g: Group| -> (m: GroupMode)
            ensures
                m == modes.mode_of(g),
            { modes.get(g) };
        let decision = policy::decide(verdicts, self.cfg.mode, group_mode);
        proof {
            let answers = choose|answers: Seq<GroupMode>|
                #![trigger policy::decides(vs, answers, self.cfg.mode, decision)]
                policy::modes_of(group_mode, vs, answers) && policy::decides(
                    vs,
                    answers,
                    self.cfg.mode,
                    decision,
                );
            assert(answers =~= modes_for(vs, modes));
            let parts = choose|parts: Seq<Seq<VerdictView>>|
                #![trigger detectors::concatenated(parts)]
                detectors::may_run(
                    before.engine.detectors@,
                    req@,
                    before.enabled_groups@,
                    parts,
                    self.engine.detectors@,
                ) && detectors::verdict_views(vs) == detectors::concatenated(parts);
            assert forall|i: int| 0 <= i < self.enabled_groups@.len() implies (
            #[trigger] self.engine.detectors@[i]).group_spec() == self.enabled_groups@[i] by {
                assert(before.engine.detectors@[i].group_spec() == self.enabled_groups@[i]);
                assert(detectors::may_run_at(
                    before.engine.detectors@[i],
                    req@,
                    before.enabled_groups@,
                    parts[i],
                    self.engine.detectors@[i],
                ));
            }
            assert(is_decision(before, req@, vs, decision, self.engine));
        }
        let log = if decision_is_noteworthy(&decision, self.fallback) {
            let entry = AuditEntry::from_with_labels(
                req,
                &decision,
                &self.cfg.labels,
            ).with_config_fallback(self.fallback);
            Some(to_log_line(&entry))
        } else {
            None
        };
        let refusal = match decision.action {
            Action::Allow => None,
            Action::Block => Some(Refusal { status: 403, body: "request blocked by purple-wolf" }),
        };
        let r = Outcome { action: decision.action, log, refusal };
        assert(comes_to(before, req@, decision, r));
        r
    }
}

/// What the host is told: 1 to go on, 0 where the guest has answered.
pub fn next_signal(action: Action) -> (r: u64)
    ensures
        r == match action {
            Action::Allow => 1u64,
            Action::Block => 0u64,
        },
{
    match action {
        Action::Allow => 1,
        Action::Block => 0,
    }
}

/// What happens to a request whose inspection broke down.
pub fn soft_failure(fail_mode: FailMode) -> (r: Option<Refusal>)
    ensures
        match fail_mode {
            FailMode::FailOpen => r is None,
            FailMode::FailClosed => r matches Some(x) && x.status == 403 && x.body@
                == "inspection failed (fail_closed)"@,
        },
{
    match fail_mode {
        FailMode::FailOpen => None,
        FailMode::FailClosed => Some(
            Refusal { status: 403, body: "inspection failed (fail_closed)" },
        ),
    }
}

// ---------------------------------------------------------------------------
// Laws
// ---------------------------------------------------------------------------
/// Under a configuration that could not be used, nothing is blocked, and every
/// request is logged, with a mark that says so.
pub proof fn law_fallback_blocks_nothing(
    state: PluginState,
    req: RequestModel,
    vs: Seq<Verdict>,
    d: Decision,
    after: Engine<BuiltDetector>,
    o: Outcome,
)
    requires
        state.wf(),
        state.fallback,
        is_decision(state, req, vs, d, after),
        comes_to(state, req, d, o),
    ensures
        o.action == Action::Allow,
        o.refusal is None,
        audit::opt_view(o.log) == Some(audit::log_line(logged_entry(state, req, d))),
        logged_entry(state, req, d).config_fallback,
{
    policy::law_monitor_never_blocks(vs, modes_for(vs, state.group_modes), d);
}

/// Under a configuration that could not be used, no request is refused before its
/// inspection, unless its body was lost on the way: a body that is over-long is
/// inspected as far as it was read, and one that the host cannot buffer passes.
pub proof fn law_fallback_refuses_nothing(
    state: PluginState,
    body: Result<BodyRead, BodyReadError>,
)
    requires
        state.wf(),
        state.fallback,
        body matches Err(e) ==> e == BodyReadError::BufferingUnsupported,
    ensures
        match body {
            Ok(_) => body_decides(state.cfg, body) is None,
            Err(_) => body_decides(state.cfg, body) == Some(Early::Pass),
        },
        state.cfg.fail_mode == FailMode::FailOpen,
{
}

/// The one thing that an inspection changes is what the reputation detector
/// remembers: the buckets, by the request of the address that sent it.
pub proof fn law_only_reputation_remembers(
    state: PluginState,
    req: RequestModel,
    vs: Seq<Verdict>,
    d: Decision,
    after: Engine<BuiltDetector>,
    i: int,
)
    requires
        state.wf(),
        is_decision(state, req, vs, d, after),
        0 <= i < state.engine.detectors@.len(),
    ensures
        match state.engine.detectors@[i] {
            BuiltDetector::Reputation(r) => after.detectors@[i] matches BuiltDetector::Reputation(s)
                && s.deny_list@ == r.deny_list@ && s.state.capacity() == r.state.capacity()
                && s.state.quota() == r.state.quota() && exists|now: nat|
                s.state.buckets() == #[trigger] reputation::after_request(
                    r.state.buckets(),
                    r.state.capacity(),
                    r.state.quota(),
                    req.source_ip,
                    now,
                ),
            _ => after.detectors@[i] == state.engine.detectors@[i],
        },
{
    let parts = choose|parts: Seq<Seq<VerdictView>>|
        #![trigger detectors::concatenated(parts)]
        detectors::may_run(
            state.engine.detectors@,
            req,
            state.enabled_groups@,
            parts,
            after.detectors@,
        ) && detectors::verdict_views(vs) == detectors::concatenated(parts);
    assert(detectors::may_run_at(
        state.engine.detectors@[i],
        req,
        state.enabled_groups@,
        parts[i],
        after.detectors@[i],
    ));
    assert(state.enabled_groups@.contains(state.engine.detectors@[i].group_spec()));
}

/// A body that was partly read is never forwarded in part: the request is refused
/// whatever the configuration says.
pub proof fn law_broken_body_is_never_forwarded(cfg: Config, e: BodyReadError)
    requires
        e != BodyReadError::BufferingUnsupported,
    ensures
        body_decides(cfg, Err(e)) == Some(Early::Refuse("request body could not be preserved"@)),
{
}

/// The part of an over-long body that was read is inspected, not thrown away.
pub proof fn law_over_long_body_is_inspected(cfg: Config, raw: RawRequest, body: BodyRead)
    requires
        cfg.body.over_cap == OverCap::Pass,
        body.exceeded,
        body.bytes@.len() > 0,
    ensures
        body_decides(cfg, Ok(body)) is None,
        inspected_request(cfg, raw, body).body == body.bytes@,
        inspected_request(cfg, raw, body).body_inspected,
        inspected_request(cfg, raw, body).body_truncated,
{
}

/// A group that is off or not enabled does not run, and every other group does.
pub proof fn law_running_groups_are_not_off(m: EffectiveGroupModes, g: Group)
    ensures
        m.running().contains(g) <==> m.mode_of(g) != GroupMode::Off,
        m.running().no_duplicates(),
{
    let s = m.running();
    let a = unless_off(m.injection, Group::Injection);
    let b = unless_off(m.signatures, Group::Signatures);
    let c = unless_off(m.structural, Group::Structure);
    let d = unless_off(m.reputation, Group::Reputation);
    let at = match g {
        Group::Injection => 0,
        Group::Signatures => a.len() as int,
        Group::Structure => (a.len() + b.len()) as int,
        Group::Reputation => (a.len() + b.len() + c.len()) as int,
    };
    if m.mode_of(g) != GroupMode::Off {
        assert(s[at] == g);
    }
}

/// Each text of a list that is an address is taken, in order, whatever stands around it.
pub proof fn law_addresses_are_taken_apart(a: Seq<Seq<char>>, b: Seq<Seq<char>>, s: Seq<char>)
    ensures
        addresses(a + b) == addresses(a) + addresses(b),
        ip::ip_of(s) matches Some(x) ==> addresses(seq![s]) == seq![x],
        ip::ip_of(s) is None ==> addresses(seq![s]).len() == 0,
    decreases b.len(),
{
    reveal_with_fuel(addresses, 2);
    let one = seq![s];
    assert(one.drop_last() =~= Seq::<Seq<char>>::empty());
    if ip::ip_of(s) is Some {
        assert(addresses(one) =~= seq![ip::ip_of(s)->0]);
    }
    if b.len() == 0 {
        assert(a + b =~= a);
        assert(addresses(a) + addresses(b) =~= addresses(a));
    } else {
        law_addresses_are_taken_apart(a, b.drop_last(), s);
        assert((a + b).drop_last() =~= a + b.drop_last());
        assert((a + b).last() == b.last());
        assert(addresses(a + b) =~= addresses(a) + addresses(b));
    }
}

proof fn lemma_open_taken_off(open: Seq<char>, rest: Seq<char>)
    requires
        forall|i: int| 0 <= i < open.len() ==> #[trigger] open[i] == '[',
        rest.len() > 0 ==> rest[0] != '[',
    ensures
        without_open(open + rest) == rest,
    decreases open.len(),
{
    let s = open + rest;
    if open.len() == 0 {
        assert(s =~= rest);
    } else {
        assert(open[0] == '[');
        assert(s.skip(1) =~= open.skip(1) + rest);
        lemma_open_taken_off(open.skip(1), rest);
    }
}

proof fn lemma_close_taken_off(m: Seq<char>, close: Seq<char>)
    requires
        forall|i: int| 0 <= i < close.len() ==> #[trigger] close[i] == ']',
        m.len() > 0 ==> m.last() != ']',
    ensures
        without_close(m + close) == m,
    decreases close.len(),
{
    let s = m + close;
    if close.len() == 0 {
        assert(s =~= m);
    } else {
        assert(close[close.len() - 1] == ']');
        assert(s.drop_last() =~= m + close.drop_last());
        lemma_close_taken_off(m, close.drop_last());
    }
}

/// The brackets around an address are taken off, and nothing else.
pub proof fn law_brackets_are_taken_off(open: Seq<char>, m: Seq<char>, close: Seq<char>)
    requires
        forall|i: int| 0 <= i < open.len() ==> #[trigger] open[i] == '[',
        forall|i: int| 0 <= i < close.len() ==> #[trigger] close[i] == ']',
        m.len() > 0,
        m[0] != '[' && m.last() != ']',
    ensures
        unbracketed(open + m + close) == m,
{
    assert(open + m + close =~= open + (m + close));
    assert((m + close)[0] == m[0]);
    lemma_open_taken_off(open, m + close);
    lemma_close_taken_off(m, close);
}

/// A peer is the address that is given, without the port and the brackets that it may
/// come with; what is no address is the address of all zeros.
pub proof fn law_peer_may_come_with_a_port(
    addr: Seq<char>,
    host: Seq<char>,
    port: Seq<char>,
    p: IpAddr,
)
    ensures
        ip::ip_of(text::trim(addr)) == Some(p) ==> peer_address(addr) == p,
        text::trim(addr) == host + seq![':'] + port && !port.contains(':') && ip::ip_of(
            text::trim(addr),
        ) is None && ip::ip_of(host) == Some(p) ==> peer_address(addr) == p,
        text::trim(addr) == host + seq![':'] + port && !port.contains(':') && ip::ip_of(
            text::trim(addr),
        ) is None && ip::ip_of(host) is None && ip::ip_of(unbracketed(host)) == Some(p)
            ==> peer_address(addr) == p,
        !text::trim(addr).contains(':') && ip::ip_of(text::trim(addr)) is None && ip::ip_of(
            unbracketed(text::trim(addr)),
        ) is None ==> peer_address(addr) == IpAddr::V4(0),
{
    let a = text::trim(addr);
    injection::lemma_last_index(a, ':');
    if a == host + seq![':'] + port && !port.contains(':') {
        let n = host.len() as int;
        assert(a[n] == ':');
        let i = injection::last_index(a, ':')->0;
        if i > n {
            assert(a[i] == port[i - n - 1]);
            assert(port.contains(port[i - n - 1]));
        }
        assert(i == n);
        assert(a.take(n) =~= host);
    }
    if !a.contains(':') && injection::last_index(a, ':') is Some {
        assert(a.contains(a[injection::last_index(a, ':')->0]));
    }
}

/// The query is what follows the first question mark.
pub proof fn law_query_follows_the_question_mark(path: Seq<char>, query: Seq<char>)
    requires
        !path.contains('?'),
    ensures
        uri_parts(path + seq!['?'] + query) == (path, query),
        uri_parts(path) == (path, Seq::<char>::empty()),
{
    let s = path + seq!['?'] + query;
    let n = path.len() as int;
    text::lemma_first_index(s, '?');
    text::lemma_first_index(path, '?');
    assert(s[n] == '?');
    let i = text::first_index(s, '?')->0;
    if i < n {
        assert(path.contains(path[i]));
    }
    assert(s.take(n) =~= path);
    assert(s.skip(n + 1) =~= query);
    if text::first_index(path, '?') is Some {
        assert(path.contains(path[text::first_index(path, '?')->0]));
    }
}

/// Every header with a value that is text is kept, in order, under its name in small
/// letters.
pub proof fn law_headers_are_kept_apart(
    a: Seq<RawHeader>,
    b: Seq<RawHeader>,
    name: Seq<char>,
    value: Seq<char>,
)
    ensures
        kept_headers(a + b) == kept_headers(a) + kept_headers(b),
        kept_headers(seq![(name, Some(value))]) == seq![(text::lower(name), value)],
        kept_headers(seq![(name, None)]).len() == 0,
    decreases b.len(),
{
    reveal_with_fuel(kept_headers, 2);
    let one: Seq<RawHeader> = seq![(name, Some(value))];
    assert(one.drop_last() =~= Seq::<RawHeader>::empty());
    assert(kept_headers(one) =~= seq![(text::lower(name), value)]);
    let no: Seq<RawHeader> = seq![(name, None)];
    assert(no.drop_last() =~= Seq::<RawHeader>::empty());
    if b.len() == 0 {
        assert(a + b =~= a);
        assert(kept_headers(a) + kept_headers(b) =~= kept_headers(a));
    } else {
        law_headers_are_kept_apart(a, b.drop_last(), name, value);
        assert((a + b).drop_last() =~= a + b.drop_last());
        assert((a + b).last() == b.last());
        assert(kept_headers(a + b) =~= kept_headers(a) + kept_headers(b));
    }
}

/// The value of a header is that of the first with its name, wherever it stands.
pub proof fn law_header_value_is_found_anywhere(headers: Seq<Pair>, name: Seq<char>, i: int)
    requires
        0 <= i < headers.len(),
        headers[i].0 == name,
        forall|j: int| 0 <= j < i ==> (#[trigger] headers[j]).0 != name,
    ensures
        exact_value(headers, name) == headers[i].1,
    decreases i,
{
    if i > 0 {
        assert(headers[0].0 != name);
        let rest = headers.skip(1);
        assert forall|j: int| 0 <= j < i - 1 implies (#[trigger] rest[j]).0 != name by {
            assert(rest[j] == headers[j + 1]);
        }
        law_header_value_is_found_anywhere(rest, name, i - 1);
    }
}

/// A header that is not there has an empty value.
pub proof fn law_missing_header_has_no_value(headers: Seq<Pair>, name: Seq<char>)
    requires
        forall|j: int| 0 <= j < headers.len() ==> (#[trigger] headers[j]).0 != name,
    ensures
        exact_value(headers, name).len() == 0,
    decreases headers.len(),
{
    if headers.len() > 0 {
        assert(headers[0].0 != name);
        let rest = headers.skip(1);
        assert forall|j: int| 0 <= j < rest.len() implies (#[trigger] rest[j]).0 != name by {
            assert(rest[j] == headers[j + 1]);
        }
        law_missing_header_has_no_value(rest, name);
    }
}

/// A body is inspected unless it could not be read, or is over long and to be refused.
pub proof fn law_body_decides_early(cfg: Config, b: BodyRead)
    ensures
        body_decides(cfg, Ok(b)) is None <==> !b.exceeded || cfg.body.over_cap == OverCap::Pass,
        b.exceeded && cfg.body.over_cap == OverCap::Block ==> body_decides(cfg, Ok(b)) == Some(
            Early::Refuse("body exceeds inspection cap"@),
        ),
        cfg.fail_mode == FailMode::FailOpen ==> body_decides(
            cfg,
            Err(BodyReadError::BufferingUnsupported),
        ) == Some(Early::Pass),
        cfg.fail_mode == FailMode::FailClosed ==> body_decides(
            cfg,
            Err(BodyReadError::BufferingUnsupported),
        ) == Some(Early::Refuse("inspection failed (fail_closed)"@)),
{
}

/// What is inspected of a request comes from its own parts: the path and the query from the
/// address, the host from its header, the client from the headers as far as they are
/// trusted, and the body as it was read.
pub proof fn law_request_is_inspected_whole(cfg: Config, raw: RawRequest, body: BodyRead)
    ensures
        ({
            let r = inspected_request(cfg, raw, body);
            let headers = kept_headers(raw_headers(raw.headers@));
            &&& r.method == text::upper(raw.method@)
            &&& r.host == text::lower(exact_value(headers, "host"@))
            &&& r.path == request::decoded(uri_parts(raw.uri@).0)
            &&& r.raw_query is None <==> uri_parts(raw.uri@).1.len() == 0
            &&& r.body == body.bytes@
            &&& r.body_inspected <==> body.bytes@.len() > 0
            &&& r.body_truncated == body.exceeded
            &&& cfg.xff.trusted_hops == 0 ==> r.source_ip == peer_address(raw.source_addr@)
        }),
{
}

/// Each verdict is decided by the level of its own group.
pub proof fn law_verdicts_go_by_their_group(vs: Seq<Verdict>, m: EffectiveGroupModes, i: int)
    requires
        0 <= i < vs.len(),
    ensures
        modes_for(vs, m).len() == vs.len(),
        vs[i].group == Group::Injection ==> modes_for(vs, m)[i] == m.injection,
        vs[i].group == Group::Signatures ==> modes_for(vs, m)[i] == m.signatures,
        vs[i].group == Group::Structure ==> modes_for(vs, m)[i] == m.structural,
        vs[i].group == Group::Reputation ==> modes_for(vs, m)[i] == m.reputation,
{
}

/// A request is refused just when the decision blocks it, and a line is logged just when
/// there is a verdict to tell of or the configuration could not be used.
pub proof fn law_outcome_follows_the_decision(
    state: PluginState,
    req: RequestModel,
    d: Decision,
    o: Outcome,
)
    requires
        comes_to(state, req, d, o),
    ensures
        o.refusal is Some <==> d.action == Action::Block,
        o.action == d.action,
        o.refusal matches Some(x) ==> x.status == 403 && x.body@
            == "request blocked by purple-wolf"@,
        o.log is Some <==> d.blocked_by is Some || d.would_block@.len() > 0 || state.fallback,
        o.log matches Some(line) ==> line@ == audit::log_line(logged_entry(state, req, d)),
        logged_entry(state, req, d).config_fallback == state.fallback,
{
}

/// What is inspected of a request holds all parameters of its query and all headers that
/// are text, the watched ones among them.
pub proof fn law_query_and_headers_are_inspected(
    cfg: Config,
    raw: RawRequest,
    body: BodyRead,
    i: int,
)
    requires
        0 <= i < kept_headers(raw_headers(raw.headers@)).len(),
    ensures
        ({
            let r = inspected_request(cfg, raw, body);
            let headers = kept_headers(raw_headers(raw.headers@));
            &&& r.query_params == request::query(uri_parts(raw.uri@).1)
            &&& r.headers.len() == headers.len()
            &&& r.headers[i].1 == headers[i].1
            &&& r.header_bytes == request::header_size(headers)
            &&& r.inspectable_headers == request::inspectable_values(r.headers)
            &&& r.source_ip == request::client_address(
                headers,
                peer_address(raw.source_addr@),
                cfg.xff.trusted_hops as nat,
            )
        }),
{
}

/// A new reputation detector denies every listed address, tracks at least one address and
/// allows at least one request a second.
pub proof fn law_new_detector_is_as_configured(
    r: ReputationDetector,
    cfg: ReputationConfig,
    i: int,
    a: IpAddr,
)
    requires
        is_fresh(r, cfg),
        0 <= i < cfg.deny_list@.len(),
        ip::ip_of(cfg.deny_list@[i]@) == Some(a),
    ensures
        r.deny_list@.contains(a),
        r.state.buckets().len() == 0,
        cfg.max_tracked_ips > 0 ==> r.state.capacity() == cfg.max_tracked_ips,
        cfg.max_tracked_ips == 0 ==> r.state.capacity() == 1,
        cfg.per_second > 0 ==> r.state.quota() == cfg.per_second,
        cfg.per_second == 0 ==> r.state.quota() == 1,
{
    let list = text::texts(cfg.deny_list@);
    let s = list[i];
    let (front, back) = (list.take(i), list.skip(i + 1));
    assert(list =~= front + (seq![s] + back));
    law_addresses_are_taken_apart(front, seq![s] + back, s);
    law_addresses_are_taken_apart(seq![s], back, s);
    let at = addresses(front).len() as int;
    assert(addresses(list)[at] == a);
}

/// A new engine has one detector for each group that runs.
pub proof fn law_every_running_group_has_its_detector(state: PluginState, i: int)
    requires
        state.wf(),
        state.is_new(),
        0 <= i < state.enabled_groups@.len(),
    ensures
        state.enabled_groups@[i] == Group::Injection ==> state.engine.detectors@[i] is Injection,
        state.enabled_groups@[i] == Group::Signatures ==> state.engine.detectors@[i] is Signatures,
        state.enabled_groups@[i] == Group::Structure ==> state.engine.detectors@[i] is Structure,
        state.enabled_groups@[i] == Group::Reputation ==> state.engine.detectors@[i] is Reputation,
        settings::effective_mode(state.cfg.groups, state.enabled_groups@[i]) != GroupMode::Off,
{
    let g = state.enabled_groups@[i];
    assert(is_detector_for(state.engine.detectors@[i], g, state.cfg.reputation));
    law_running_groups_are_not_off(state.group_modes, g);
    assert(state.group_modes.running().contains(g));
    assert(state.group_modes.mode_of(g) == settings::effective_mode(state.cfg.groups, g));
}

} // verus!
