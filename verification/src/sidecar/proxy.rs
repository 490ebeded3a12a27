//! What happens to a request on its way through the proxy.
use vstd::prelude::*;

use crate::config::{FailMode, GroupMode, OverCap};
use crate::detectors::{Group, Verdict};
use crate::ip;
use crate::ip::{parse_ip, IpAddr};
use crate::policy;
use crate::policy::{Action, Decision};
use crate::request;
use crate::request::find_chain_address;
use crate::sidecar::config::Config;
use crate::sidecar::observe;
use crate::sidecar::observe::{group_hits, AuditEntry};
use crate::sidecar::request_model::{RequestView, ViewModel};
use crate::sidecar::rules;
use crate::sidecar::rules::Rules;
use crate::text;
use crate::text::{chars_of, join2, same_ignoring_case, text_between, trim_text};

verus! {

/// An answer that the proxy gives itself.
#[derive(Debug, Clone, Copy, PartialEq, Eq)]
pub struct Refusal {
    /// The status.
    pub status: u16,
    /// The body.
    pub reason: &'static str,
}

/// What a refusal says.
pub open spec fn says(r: Refusal, status: u16, reason: Seq<char>) -> bool {
    r.status == status && r.reason@ == reason
}

fn blocked_response(reason: &'static str) -> (r: Refusal)
    ensures
        says(r, 403, reason@),
{
    Refusal { status: 403, reason }
}

fn bad_gateway(reason: &'static str) -> (r: Refusal)
    ensures
        says(r, 502, reason@),
{
    Refusal { status: 502, reason }
}

// ---------------------------------------------------------------------------
// The body
// ---------------------------------------------------------------------------
/// A body while it is read, up to a limit.
#[derive(Debug)]
pub struct BodyPrefix {
    /// What was read.
    pub bytes: Vec<u8>,
    /// The limit.
    pub cap: usize,
}

impl BodyPrefix {
    /// Nothing was read yet.
    pub fn new(cap: usize) -> (r: BodyPrefix)
        ensures
            r.bytes@ == Seq::<u8>::empty(),
            r.cap == cap,
    {
        BodyPrefix { bytes: Vec::new(), cap }
    }

    /// Takes a chunk, whole, and says whether the limit is exceeded, so that
    /// reading stops.
    pub fn read_body(&mut self, chunk: &[u8]) -> (over: bool)
        ensures
            final(self).bytes@ == old(self).bytes@ + chunk@,
            final(self).cap == old(self).cap,
            over == (final(self).bytes@.len() > old(self).cap),
    {
        let ghost before = self.bytes@;
        let mut i: usize = 0;
        let n: usize = chunk.len();
        while i < n
            invariant
                i <= n,
                n == chunk@.len(),
                self.cap == old(self).cap,
                self.bytes@ == before + chunk@.take(i as int),
            decreases n - i,
        {
            self.bytes.push(chunk[i]);
            i = i + 1;
            assert(self.bytes@ =~= before + chunk@.take(i as int));
        }
        assert(chunk@.take(i as int) =~= chunk@);
        self.bytes.len() > self.cap
    }
}

/// What came of reading a body.
#[derive(Debug, PartialEq, Eq)]
pub enum BodyRead {
    /// All of it, within the limit.
    Buffered(Vec<u8>),
    /// More than the limit; the rest is not read.
    OverCap,
    /// Reading failed.
    Error,
}

/// What the detectors get of a body.
#[derive(Debug, PartialEq, Eq)]
pub struct Inspected {
    /// The bytes.
    pub bytes: Vec<u8>,
    /// Whether they are the whole body.
    pub complete: bool,
}

/// What the detectors get of a body, or how the request ends without them.
pub fn take_body(cfg: &Config, read: BodyRead) -> (r: Result<Inspected, Refusal>)
    ensures
        match read {
            BodyRead::Buffered(b) => r matches Ok(i) && i.bytes@ == b@ && i.complete,
            BodyRead::OverCap => if cfg.body.over_cap == OverCap::Block {
                r matches Err(x) && says(x, 403, "body exceeds inspection cap"@)
            } else {
                r matches Ok(i) && i.bytes@ == Seq::<u8>::empty() && !i.complete
            },
            BodyRead::Error => if cfg.fail_mode == FailMode::FailClosed {
                r matches Err(x) && says(x, 403, "inspection failed (fail_closed)"@)
            } else {
                r matches Err(x) && says(x, 502, "body read error"@)
            },
        },
{
    match read {
        BodyRead::Buffered(bytes) => Ok(Inspected { bytes, complete: true }),
        BodyRead::OverCap => match cfg.body.over_cap {
            OverCap::Block => Err(blocked_response("body exceeds inspection cap")),
            OverCap::Pass => Ok(Inspected { bytes: Vec::new(), complete: false }),
        },
        BodyRead::Error => match cfg.fail_mode {
            FailMode::FailClosed => Err(blocked_response("inspection failed (fail_closed)")),
            FailMode::FailOpen => Err(bad_gateway("body read error")),
        },
    }
}

// ---------------------------------------------------------------------------
// The client
// ---------------------------------------------------------------------------
/// An optional text, by its characters.
pub open spec fn opt_str(o: Option<&str>) -> Option<Seq<char>> {
    match o {
        Some(s) => Some(s@),
        None => None,
    }
}

/// The client's address: the first in the forwarding header, else the one in the
/// real-address header, else the peer.
pub open spec fn client_address(
    forwarded_for: Option<Seq<char>>,
    real_ip: Option<Seq<char>>,
    peer: IpAddr,
) -> IpAddr {
    if forwarded_for is Some && request::chain_address(forwarded_for->0, 0) is Some {
        request::chain_address(forwarded_for->0, 0)->0
    } else if real_ip is Some && ip::ip_of(text::trim(real_ip->0)) is Some {
        ip::ip_of(text::trim(real_ip->0))->0
    } else {
        peer
    }
}

/// The client's address, out of the two headers that may name it.
pub fn client_ip(forwarded_for: Option<&str>, real_ip: Option<&str>, peer: IpAddr) -> (r: IpAddr)
    ensures
        r == client_address(opt_str(forwarded_for), opt_str(real_ip), peer),
{
    if let Some(chain) = forwarded_for {
        if let Some(a) = find_chain_address(chain, 0) {
            return a;
        }
    }
    if let Some(s) = real_ip {
        if let Some(a) = parse_ip(&trim_text(s)) {
            return a;
        }
    }
    peer
}

// ---------------------------------------------------------------------------
// The decision
// ---------------------------------------------------------------------------
/// Where a request goes.
#[derive(Debug, Clone, Copy, PartialEq, Eq)]
pub enum Route {
    /// To the upstream.
    Forward,
    /// Back, with an answer.
    Refuse(Refusal),
}

/// What comes of a request.
#[derive(Debug)]
pub struct Handled {
    /// Where it goes.
    pub route: Route,
    /// What to log, if anything.
    pub audit: Option<AuditEntry>,
    /// The groups whose hits to count; nothing where the request was not decided
    /// on.
    pub hits: Option<(Action, Vec<Group>)>,
}

/// The levels of the groups of some verdicts.
pub open spec fn levels(cfg: Config, v: ViewModel, vs: Seq<Verdict>) -> Seq<GroupMode> {
    Seq::new(vs.len(), |i: int| rules::level(cfg, vs[i].group, v.host, v.path))
}

/// What a decision on a request comes to.
pub open spec fn comes_to(v: ViewModel, d: Decision, h: Handled) -> bool {
    let entry = observe::entry_for(v, d);
    &&& match d.action {
        Action::Allow => h.route == Route::Forward,
        Action::Block => h.route matches Route::Refuse(x) && says(
            x,
            403,
            "request blocked by purple-wolf"@,
        ),
    }
    &&& if entry.blocked_rule is Some || entry.would_block_rules.len() > 0 {
        h.audit matches Some(e) && e@ == entry
    } else {
        h.audit is None
    }
    &&& h.hits matches Some(x)
    &&& x.0 == d.action
    &&& x.1@ == observe::hit_groups(d)
}

/// A decision that lets a request pass without a word.
pub open spec fn is_silent(d: Decision) -> bool {
    d.action == Action::Allow && d.blocked_by is None && d.would_block@.len() == 0
}

fn report(view: &RequestView, decision: &Decision) -> (r: Handled)
    ensures
        comes_to(view@, *decision, r),
{
    let entry = AuditEntry::from(view, decision);
    let audit = if entry.is_noteworthy() {
        Some(entry)
    } else {
        None
    };
    let hits = group_hits(decision);
    let route = match decision.action {
        Action::Block => Route::Refuse(blocked_response("request blocked by purple-wolf")),
        Action::Allow => Route::Forward,
    };
    Handled { route, audit, hits: Some((decision.action, hits)) }
}

/// What comes of a request, by the verdicts on it. Without verdicts the inspection
/// broke down.
pub fn handle(
    rules: &Rules,
    cfg: &Config,
    view: &RequestView,
    verdicts: Option<Vec<Verdict>>,
) -> (r: Handled)
    ensures
        match verdicts {
            Some(vs) => exists|d: Decision| #[trigger]
                policy::decides(vs@, levels(*cfg, view@, vs@), cfg.mode, d) && comes_to(view@, d, r),
            None => if cfg.fail_mode == FailMode::FailClosed {
                &&& r.route matches Route::Refuse(x)
                &&& says(x, 403, "inspection failed (fail_closed)"@)
                &&& r.audit is None
                &&& r.hits is None
            } else {
                exists|d: Decision| #[trigger] is_silent(d) && comes_to(view@, d, r)
            },
        },
{
    match verdicts {
        Some(vs) => {
            let ghost seen = vs@;
            let group_mode = |g: Group| -> (m: GroupMode)
                ensures
                    m == rules::level(*cfg, g, view@.host, view@.path),
                { rules.group_mode(cfg, g, &view.host, &view.path) };
            let decision = policy::decide(vs, cfg.mode, group_mode);
            proof {
                let answers = choose|answers: Seq<GroupMode>|
                    #![trigger policy::decides(seen, answers, cfg.mode, decision)]
                    policy::modes_of(group_mode, seen, answers) && policy::decides(
                        seen,
                        answers,
                        cfg.mode,
                        decision,
                    );
                assert(answers =~= levels(*cfg, view@, seen));
                assert(policy::decides(seen, levels(*cfg, view@, seen), cfg.mode, decision));
            }
            report(view, &decision)
        },
        None => match cfg.fail_mode {
            FailMode::FailClosed => Handled {
                route: Route::Refuse(blocked_response("inspection failed (fail_closed)")),
                audit: None,
                hits: None,
            },
            FailMode::FailOpen => {
                let decision = Decision {
                    action: Action::Allow,
                    blocked_by: None,
                    would_block: Vec::new(),
                };
                assert(is_silent(decision));
                report(view, &decision)
            },
        },
    }
}

// ---------------------------------------------------------------------------
// Forwarding
// ---------------------------------------------------------------------------
/// A text without the slashes at its end.
pub open spec fn without_slashes(s: Seq<char>) -> Seq<char>
    decreases s.len(),
{
    if s.len() > 0 && s.last() == '/' {
        without_slashes(s.drop_last())
    } else {
        s
    }
}

/// Where a request is forwarded.
pub fn forward_url(upstream: &str, path_and_query: Option<&str>) -> (r: String)
    ensures
        r@ == without_slashes(upstream@) + match path_and_query {
            Some(p) => p@,
            None => "/"@,
        },
{
    let c = chars_of(upstream);
    let mut end: usize = c.len();
    assert(c@.take(end as int) =~= upstream@);
    while end > 0 && c[end - 1] == '/'
        invariant
            end <= c@.len(),
            c@ == upstream@,
            without_slashes(upstream@) == without_slashes(c@.take(end as int)),
        decreases end,
    {
        assert(c@.take(end as int).last() == c@[end - 1]);
        assert(c@.take(end as int).drop_last() =~= c@.take(end - 1));
        end = end - 1;
    }
    assert(end > 0 ==> c@.take(end as int).last() == c@[end - 1]);
    let base = text_between(&c, 0, end);
    assert(base@ =~= c@.take(end as int));
    match path_and_query {
        Some(p) => join2(&base, p),
        None => join2(&base, "/"),
    }
}

/// A header that is not passed on, because each connection has its own.
pub open spec fn is_own(name: Seq<char>) -> bool {
    let n = text::lower(name);
    ||| n == text::lower("host"@)
    ||| n == text::lower("content-length"@)
    ||| n == text::lower("transfer-encoding"@)
    ||| n == text::lower("connection"@)
}

/// Whether a header is not passed on.
pub fn is_hop_by_hop(name: &str) -> (r: bool)
    ensures
        r == is_own(name@),
{
    same_ignoring_case(name, "host") || same_ignoring_case(name, "content-length")
        || same_ignoring_case(name, "transfer-encoding") || same_ignoring_case(name, "connection")
}

/// Headers, by name and bytes.
pub open spec fn header_views(v: Seq<(String, Vec<u8>)>) -> Seq<(Seq<char>, Seq<u8>)> {
    v.map_values(|h: (String, Vec<u8>)| (h.0@, h.1@))
}

/// The headers that are passed on, in order.
pub open spec fn passed_on(v: Seq<(Seq<char>, Seq<u8>)>) -> Seq<(Seq<char>, Seq<u8>)>
    decreases v.len(),
{
    if v.len() == 0 {
        Seq::empty()
    } else if is_own(v.last().0) {
        passed_on(v.drop_last())
    } else {
        passed_on(v.drop_last()).push(v.last())
    }
}

/// The headers that are passed on, in order.
pub fn forwarded_headers(headers: Vec<(String, Vec<u8>)>) -> (r: Vec<(String, Vec<u8>)>)
    ensures
        header_views(r@) == passed_on(header_views(headers@)),
{
    let ghost all = header_views(headers@);
    let mut out: Vec<(String, Vec<u8>)> = Vec::new();
    assert(header_views(out@) =~= passed_on(all.take(0)));
    for (name, value) in it: headers
        invariant
            it.seq() == headers@,
            all == header_views(headers@),
            header_views(out@) == passed_on(all.take(it.index() as int)),
    {
        let ghost n = it.index() as int;
        let ghost before = header_views(out@);
        assert(all.take(n + 1).drop_last() =~= all.take(n));
        assert(all.take(n + 1).last() == (name@, value@));
        if !is_hop_by_hop(&name) {
            let ghost entry = (name@, value@);
            out.push((name, value));
            assert(header_views(out@) =~= before.push(entry));
        }
    }
    assert(all.take(all.len() as int) =~= all);
    out
}

// ---------------------------------------------------------------------------
// Laws
// ---------------------------------------------------------------------------
/// No header of the connection itself is ever passed on.
pub proof fn law_own_headers_stay(v: Seq<(Seq<char>, Seq<u8>)>, i: int)
    requires
        0 <= i < passed_on(v).len(),
    ensures
        !is_own(passed_on(v)[i].0),
    decreases v.len(),
{
    if v.len() > 0 {
        let front = passed_on(v.drop_last());
        if i < front.len() {
            law_own_headers_stay(v.drop_last(), i);
        }
    }
}

/// Where only monitoring is configured, every request that was decided on is
/// forwarded.
pub proof fn law_monitoring_forwards(
    cfg: Config,
    v: ViewModel,
    vs: Seq<Verdict>,
    d: Decision,
    h: Handled,
)
    requires
        cfg.mode == crate::config::Mode::Monitor,
        policy::decides(vs, levels(cfg, v, vs), cfg.mode, d),
        comes_to(v, d, h),
    ensures
        h.route == Route::Forward,
{
    policy::law_monitor_never_blocks(vs, levels(cfg, v, vs), d);
}

/// The first part of the chain that is an address is the client, whichever part it is.
pub proof fn law_first_address_of_the_chain_is_the_client(
    chain: Seq<char>,
    real_ip: Option<Seq<char>>,
    peer: IpAddr,
    i: int,
    client: IpAddr,
)
    requires
        0 <= i < text::split(chain, ',').len(),
        ip::ip_of(text::trim(text::split(chain, ',')[i])) == Some(client),
        forall|j: int|
            0 <= j < i ==> ip::ip_of(text::trim(#[trigger] text::split(chain, ',')[j])) is None,
    ensures
        client_address(Some(chain), real_ip, peer) == client,
{
    request::law_chain_gives_its_leftmost_address(chain, 0, i, client);
}

/// Where the chain holds no address, the other header counts; where that holds none either,
/// the client is the peer.
pub proof fn law_other_header_comes_second(
    chain: Option<Seq<char>>,
    header: Seq<char>,
    peer: IpAddr,
)
    requires
        chain matches Some(c) ==> forall|j: int|
            0 <= j < text::split(c, ',').len() ==> ip::ip_of(
                text::trim(#[trigger] text::split(c, ',')[j]),
            ) is None,
    ensures
        ip::ip_of(text::trim(header)) matches Some(a) ==> client_address(chain, Some(header), peer)
            == a,
        ip::ip_of(text::trim(header)) is None ==> client_address(chain, Some(header), peer) == peer,
        client_address(chain, None, peer) == peer,
{
    if chain is Some {
        request::law_chain_without_address_gives_none(chain->0, 0);
    }
}

/// All slashes at the end are taken off, and nothing else.
pub proof fn law_slashes_at_the_end_are_taken_off(m: Seq<char>, slashes: Seq<char>)
    requires
        forall|i: int| 0 <= i < slashes.len() ==> #[trigger] slashes[i] == '/',
        m.len() > 0 ==> m.last() != '/',
    ensures
        without_slashes(m + slashes) == m,
    decreases slashes.len(),
{
    let s = m + slashes;
    if slashes.len() == 0 {
        assert(s =~= m);
    } else {
        assert(slashes[slashes.len() - 1] == '/');
        assert(s.drop_last() =~= m + slashes.drop_last());
        law_slashes_at_the_end_are_taken_off(m, slashes.drop_last());
    }
}

/// Each header is passed on or held back by itself, so their order stays.
pub proof fn law_headers_are_passed_on_apart(
    a: Seq<(Seq<char>, Seq<u8>)>,
    b: Seq<(Seq<char>, Seq<u8>)>,
)
    ensures
        passed_on(a + b) == passed_on(a) + passed_on(b),
    decreases b.len(),
{
    if b.len() == 0 {
        assert(a + b =~= a);
        assert(passed_on(a) + passed_on(b) =~= passed_on(a));
    } else {
        law_headers_are_passed_on_apart(a, b.drop_last());
        assert((a + b).drop_last() =~= a + b.drop_last());
        assert((a + b).last() == b.last());
        assert(passed_on(a + b) =~= passed_on(a) + passed_on(b));
    }
}

/// What is held back is what belongs to one connection, whatever the case of its name;
/// every other header is passed on as it is.
pub proof fn law_only_connection_headers_are_held_back(name: Seq<char>, value: Seq<u8>)
    ensures
        ({
            let n = text::lower(name);
            let own = n == "host"@ || n == "content-length"@ || n == "transfer-encoding"@ || n
                == "connection"@;
            &&& own ==> passed_on(seq![(name, value)]).len() == 0
            &&& !own ==> passed_on(seq![(name, value)]) == seq![(name, value)]
        }),
{
    reveal_strlit("host");
    reveal_strlit("content-length");
    reveal_strlit("transfer-encoding");
    reveal_strlit("connection");
    assert(text::lower("host"@) =~= "host"@);
    assert(text::lower("content-length"@) =~= "content-length"@);
    assert(text::lower("transfer-encoding"@) =~= "transfer-encoding"@);
    assert(text::lower("connection"@) =~= "connection"@);
    reveal_with_fuel(passed_on, 2);
    let one = seq![(name, value)];
    assert(one.drop_last() =~= Seq::<(Seq<char>, Seq<u8>)>::empty());
    if !is_own(name) {
        assert(passed_on(one) =~= one);
    }
}

/// A request is refused just when the decision blocks it, it is told of when there is a
/// verdict to tell of, and every verdict is counted.
pub proof fn law_request_goes_as_decided(v: ViewModel, d: Decision, h: Handled)
    requires
        comes_to(v, d, h),
    ensures
        h.route == Route::Forward <==> d.action == Action::Allow,
        h.route matches Route::Refuse(x) ==> x.status == 403 && x.reason@
            == "request blocked by purple-wolf"@,
        h.audit is Some <==> d.blocked_by is Some || d.would_block@.len() > 0,
        h.audit matches Some(e) ==> e@ == observe::entry_for(v, d),
        h.hits matches Some(x) && x.0 == d.action && x.1@ == observe::hit_groups(d),
{
}

/// Each verdict is decided by the level of its group for the host and the path.
pub proof fn law_verdicts_go_by_their_level(cfg: Config, v: ViewModel, vs: Seq<Verdict>, i: int)
    requires
        0 <= i < vs.len(),
    ensures
        levels(cfg, v, vs).len() == vs.len(),
        levels(cfg, v, vs)[i] == rules::level(cfg, vs[i].group, v.host, v.path),
{
}

} // verus!
