//! The audit log: one entry for each request that is worth a line.
use vstd::prelude::*;

use crate::detectors;
use crate::detectors::Verdict;
use crate::json;
use crate::json::{json_string, push_list, push_object, push_optional};
use crate::labels;
use crate::labels::Labels;
use crate::policy::{Action, Decision};
use crate::request;
use crate::request::{Pair, Request, RequestModel};
use crate::text;
use crate::text::{copy_text, join3, push_text};

verus! {

/// One line of the audit log.
#[derive(Debug, PartialEq)]
pub struct AuditEntry {
    /// The host, in lower case.
    pub host: String,
    /// The path, decoded.
    pub path: String,
    /// The query as it was received, so that a payload there can be seen.
    pub query: Option<String>,
    /// The method, in upper case.
    pub method: String,
    /// The address the request came from.
    pub source_ip: String,
    /// `allow` or `block`.
    pub action: String,
    /// The rule that blocked the request.
    pub blocked_rule: Option<String>,
    /// The severity of the verdict that blocked the request.
    pub blocked_severity: Option<String>,
    /// The detail of the verdict that blocked the request.
    pub blocked_detail: Option<String>,
    /// The rules that would have blocked the request.
    pub would_block_rules: Vec<String>,
    /// Whether only a prefix of the body was inspected.
    pub body_truncated: bool,
    /// Whether the configuration could not be used, so that nothing is blocked.
    pub config_fallback: bool,
    /// The operator's labels.
    pub labels: Labels,
}

/// What an entry says.
#[verifier::ext_equal]
pub struct AuditModel {
    pub host: Seq<char>,
    pub path: Seq<char>,
    pub query: Option<Seq<char>>,
    pub method: Seq<char>,
    pub source_ip: Seq<char>,
    pub action: Seq<char>,
    pub blocked_rule: Option<Seq<char>>,
    pub blocked_severity: Option<Seq<char>>,
    pub blocked_detail: Option<Seq<char>>,
    pub would_block_rules: Seq<Seq<char>>,
    pub body_truncated: bool,
    pub config_fallback: bool,
    pub labels: Seq<Pair>,
}

/// An optional text, by its characters.
pub open spec fn opt_view(o: Option<String>) -> Option<Seq<char>> {
    match o {
        Some(s) => Some(s@),
        None => None,
    }
}

impl View for AuditEntry {
    type V = AuditModel;

    open spec fn view(&self) -> AuditModel {
        AuditModel {
            host: self.host@,
            path: self.path@,
            query: opt_view(self.query),
            method: self.method@,
            source_ip: self.source_ip@,
            action: self.action@,
            blocked_rule: opt_view(self.blocked_rule),
            blocked_severity: opt_view(self.blocked_severity),
            blocked_detail: opt_view(self.blocked_detail),
            would_block_rules: text::texts(self.would_block_rules@),
            body_truncated: self.body_truncated,
            config_fallback: self.config_fallback,
            labels: request::pairs(self.labels.entries@),
        }
    }
}

/// The full name of a verdict's rule.
pub open spec fn rule_name(v: Verdict) -> Seq<char> {
    v.group.tag() + "/"@ + v.rule@
}

/// The full names of the rules of some verdicts.
pub open spec fn rule_names(vs: Seq<Verdict>) -> Seq<Seq<char>> {
    vs.map_values(|v: Verdict| rule_name(v))
}

/// The entry for a request and the decision on it. The control characters of
/// label values are replaced.
pub open spec fn entry_for(req: RequestModel, d: Decision, label_entries: Seq<Pair>) -> AuditModel {
    AuditModel {
        host: req.host,
        path: req.path,
        query: req.raw_query,
        method: req.method,
        source_ip: req.source_ip.text(),
        action: match d.action {
            Action::Allow => "allow"@,
            Action::Block => "block"@,
        },
        blocked_rule: match d.blocked_by {
            Some(v) => Some(rule_name(v)),
            None => None,
        },
        blocked_severity: match d.blocked_by {
            Some(v) => Some(v.severity.tag()),
            None => None,
        },
        blocked_detail: match d.blocked_by {
            Some(v) => Some(v.detail@),
            None => None,
        },
        would_block_rules: rule_names(d.would_block@),
        body_truncated: req.body_truncated,
        config_fallback: false,
        labels: labels::scrubbed_values(label_entries),
    }
}

fn write_rule_name(v: &Verdict) -> (r: String)
    ensures
        r@ == rule_name(*v),
{
    join3(v.group.as_str(), "/", v.rule)
}

/// A label value with its control characters replaced.
pub fn scrub_label_value(v: &str) -> (r: String)
    ensures
        r@ == text::scrubbed(v@),
{
    text::scrub(v)
}

impl AuditEntry {
    /// The entry for a request and the decision on it, without labels.
    pub fn from(req: &Request, decision: &Decision) -> (r: AuditEntry)
        ensures
            r@ == entry_for(req@, *decision, Seq::empty()),
            r.labels.wf(),
    {
        let r = AuditEntry::from_with_labels(req, decision, &Labels::new());
        assert(r@ =~= entry_for(req@, *decision, Seq::empty()));
        r
    }

    /// The entry for a request and the decision on it, with the operator's
    /// labels.
    pub fn from_with_labels(req: &Request, decision: &Decision, labels: &Labels) -> (r: AuditEntry)
        requires
            labels.wf(),
        ensures
            r@ == entry_for(req@, *decision, request::pairs(labels.entries@)),
            r.labels.wf(),
    {
        let query = match req.raw_query() {
            Some(q) => Some(copy_text(q)),
            None => None,
        };
        let action = match decision.action {
            Action::Allow => copy_text("allow"),
            Action::Block => copy_text("block"),
        };
        let (blocked_rule, blocked_severity, blocked_detail) = match &decision.blocked_by {
            Some(v) => (
                Some(write_rule_name(v)),
                Some(copy_text(v.severity.as_str())),
                Some(copy_text(&v.detail)),
            ),
            None => (None, None, None),
        };
        let ghost all = rule_names(decision.would_block@);
        let mut would_block_rules: Vec<String> = Vec::new();
        let mut i: usize = 0;
        assert(text::texts(would_block_rules@) =~= all.take(0));
        while i < decision.would_block.len()
            invariant
                i <= decision.would_block@.len(),
                all == rule_names(decision.would_block@),
                text::texts(would_block_rules@) == all.take(i as int),
            decreases decision.would_block@.len() - i,
        {
            let ghost before = text::texts(would_block_rules@);
            let name = write_rule_name(&decision.would_block[i]);
            let ghost view = name@;
            would_block_rules.push(name);
            assert(text::texts(would_block_rules@) =~= before.push(view));
            assert(all.take(i + 1) =~= all.take(i as int).push(view));
            i = i + 1;
        }
        assert(all.take(all.len() as int) == all);
        let r = AuditEntry {
            host: copy_text(&req.host),
            path: copy_text(&req.path),
            query,
            method: copy_text(&req.method),
            source_ip: req.source_ip.to_text(),
            action,
            blocked_rule,
            blocked_severity,
            blocked_detail,
            would_block_rules,
            body_truncated: req.body_truncated,
            config_fallback: false,
            labels: labels.scrubbed(),
        };
        assert(r@ =~= entry_for(req@, *decision, request::pairs(labels.entries@)));
        r
    }

    /// The entry, marked where the configuration could not be used.
    pub fn with_config_fallback(self, config_fallback: bool) -> (r: AuditEntry)
        ensures
            r@ == (AuditModel { config_fallback, ..self@ }),
            r.labels == self.labels,
    {
        let mut r = self;
        r.config_fallback = config_fallback;
        r
    }

    /// Whether there is anything worth logging.
    pub fn is_noteworthy(&self) -> (r: bool)
        ensures
            r == (self@.blocked_rule is Some || self@.would_block_rules.len() > 0),
    {
        self.blocked_rule.is_some() || self.would_block_rules.len() > 0
    }
}

/// The log line of an entry: a JSON object. The marks for a truncated body and for
/// a configuration that could not be used, and the labels, appear only where there
/// is something to say.
pub open spec fn log_line(e: AuditModel) -> Seq<char> {
    "{\"host\":"@ + json::quoted(e.host) + ",\"path\":"@ + json::quoted(e.path) + ",\"query\":"@
        + json::optional(e.query) + ",\"method\":"@ + json::quoted(e.method) + ",\"source_ip\":"@
        + json::quoted(e.source_ip) + ",\"action\":"@ + json::quoted(e.action)
        + ",\"blocked_rule\":"@ + json::optional(e.blocked_rule) + ",\"blocked_severity\":"@
        + json::optional(e.blocked_severity) + ",\"blocked_detail\":"@ + json::optional(
        e.blocked_detail,
    ) + ",\"would_block_rules\":"@ + json::list(e.would_block_rules) + (if e.body_truncated {
        ",\"body_truncated\":true"@
    } else {
        Seq::empty()
    }) + (if e.config_fallback {
        ",\"config_fallback\":true"@
    } else {
        Seq::empty()
    }) + (if e.labels.len() > 0 {
        ",\"labels\":"@ + json::object(e.labels)
    } else {
        Seq::empty()
    }) + "}"@
}

/// Writes an entry as a single line of JSON.
pub fn to_log_line(entry: &AuditEntry) -> (r: String)
    ensures
        r@ == log_line(entry@),
{
    let mut out = copy_text("{\"host\":");
    push_text(&mut out, &json_string(&entry.host));
    push_text(&mut out, ",\"path\":");
    push_text(&mut out, &json_string(&entry.path));
    push_text(&mut out, ",\"query\":");
    push_optional(&mut out, &entry.query);
    push_text(&mut out, ",\"method\":");
    push_text(&mut out, &json_string(&entry.method));
    push_text(&mut out, ",\"source_ip\":");
    push_text(&mut out, &json_string(&entry.source_ip));
    push_text(&mut out, ",\"action\":");
    push_text(&mut out, &json_string(&entry.action));
    push_text(&mut out, ",\"blocked_rule\":");
    push_optional(&mut out, &entry.blocked_rule);
    push_text(&mut out, ",\"blocked_severity\":");
    push_optional(&mut out, &entry.blocked_severity);
    push_text(&mut out, ",\"blocked_detail\":");
    push_optional(&mut out, &entry.blocked_detail);
    push_text(&mut out, ",\"would_block_rules\":");
    push_list(&mut out, &entry.would_block_rules);
    let ghost front = out@;
    if entry.body_truncated {
        push_text(&mut out, ",\"body_truncated\":true");
    } else {
        assert(front =~= front + Seq::<char>::empty());
    }
    let ghost marked = out@;
    if entry.config_fallback {
        push_text(&mut out, ",\"config_fallback\":true");
    } else {
        assert(marked =~= marked + Seq::<char>::empty());
    }
    let ghost middle = out@;
    if entry.labels.len() > 0 {
        push_text(&mut out, ",\"labels\":");
        push_object(&mut out, &entry.labels.entries);
        assert(out@ =~= middle + (",\"labels\":"@ + json::object(entry@.labels)));
    } else {
        assert(middle =~= middle + Seq::<char>::empty());
    }
    push_text(&mut out, "}");
    out
}

// ---------------------------------------------------------------------------
// Laws
// ---------------------------------------------------------------------------
/// Whatever a request or a label holds, its log line stays on one line.
pub proof fn law_log_line_is_one_line(e: AuditModel)
    ensures
        json::is_one_line(log_line(e)),
{
    reveal_strlit("{\"host\":");
    reveal_strlit(",\"path\":");
    reveal_strlit(",\"query\":");
    reveal_strlit(",\"method\":");
    reveal_strlit(",\"source_ip\":");
    reveal_strlit(",\"action\":");
    reveal_strlit(",\"blocked_rule\":");
    reveal_strlit(",\"blocked_severity\":");
    reveal_strlit(",\"blocked_detail\":");
    reveal_strlit(",\"would_block_rules\":");
    reveal_strlit(",\"body_truncated\":true");
    reveal_strlit(",\"config_fallback\":true");
    reveal_strlit(",\"labels\":");
    reveal_strlit("}");
    json::law_json_string_is_one_line(e.host);
    json::law_json_string_is_one_line(e.path);
    json::law_json_string_is_one_line(e.method);
    json::law_json_string_is_one_line(e.source_ip);
    json::law_json_string_is_one_line(e.action);
    json::lemma_optional_one_line(e.query);
    json::lemma_optional_one_line(e.blocked_rule);
    json::lemma_optional_one_line(e.blocked_severity);
    json::lemma_optional_one_line(e.blocked_detail);
    json::lemma_list_one_line(e.would_block_rules);
    json::lemma_object_one_line(e.labels);
    let parts = seq![
        "{\"host\":"@,
        json::quoted(e.host),
        ",\"path\":"@,
        json::quoted(e.path),
        ",\"query\":"@,
        json::optional(e.query),
        ",\"method\":"@,
        json::quoted(e.method),
        ",\"source_ip\":"@,
        json::quoted(e.source_ip),
        ",\"action\":"@,
        json::quoted(e.action),
        ",\"blocked_rule\":"@,
        json::optional(e.blocked_rule),
        ",\"blocked_severity\":"@,
        json::optional(e.blocked_severity),
        ",\"blocked_detail\":"@,
        json::optional(e.blocked_detail),
        ",\"would_block_rules\":"@,
        json::list(e.would_block_rules),
        (if e.body_truncated {
            ",\"body_truncated\":true"@
        } else {
            Seq::empty()
        }),
        (if e.config_fallback {
            ",\"config_fallback\":true"@
        } else {
            Seq::empty()
        }),
        (if e.labels.len() > 0 {
            ",\"labels\":"@ + json::object(e.labels)
        } else {
            Seq::empty()
        }),
        "}"@,
    ];
    json::lemma_one_line_join(",\"labels\":"@, json::object(e.labels));
    assert(forall|i: int| 0 <= i < parts.len() ==> json::is_one_line(#[trigger] parts[i]));
    lemma_joined_one_line(parts);
    reveal_with_fuel(joined, 25);
    assert(joined(parts) =~= log_line(e));
}

/// Texts one after the other.
spec fn joined(parts: Seq<Seq<char>>) -> Seq<char>
    decreases parts.len(),
{
    if parts.len() == 0 {
        Seq::empty()
    } else {
        joined(parts.drop_last()) + parts.last()
    }
}

proof fn lemma_joined_one_line(parts: Seq<Seq<char>>)
    requires
        forall|i: int| 0 <= i < parts.len() ==> json::is_one_line(#[trigger] parts[i]),
    ensures
        json::is_one_line(joined(parts)),
    decreases parts.len(),
{
    if parts.len() > 0 {
        assert forall|i: int| 0 <= i < parts.drop_last().len() implies json::is_one_line(
            #[trigger] parts.drop_last()[i],
        ) by {
            assert(parts[i] == parts.drop_last()[i]);
        }
        lemma_joined_one_line(parts.drop_last());
        assert(json::is_one_line(parts[parts.len() - 1]));
        json::lemma_one_line_join(joined(parts.drop_last()), parts.last());
    }
}

/// An entry is worth a line exactly where the decision holds a verdict.
pub proof fn law_noteworthy_means_a_verdict(req: RequestModel, d: Decision, label_entries: Seq<Pair>)
    ensures
        ({
            let e = entry_for(req, d, label_entries);
            (e.blocked_rule is Some || e.would_block_rules.len() > 0) <==> (d.blocked_by is Some
                || d.would_block@.len() > 0)
        }),
{
}

// ---------------------------------------------------------------------------
// Reading a line
// ---------------------------------------------------------------------------
/// The labels, where there are any, and the end.
spec fn line_labels(e: AuditModel) -> Seq<char> {
    if e.labels.len() > 0 {
        ",\"labels\":"@ + (json::object(e.labels) + "}"@)
    } else {
        "}"@
    }
}

/// The mark for a configuration that could not be used, where there is one, and
/// what follows.
spec fn line_fallback(e: AuditModel) -> Seq<char> {
    if e.config_fallback {
        ",\"config_fallback\":true"@ + line_labels(e)
    } else {
        line_labels(e)
    }
}

/// The mark for a truncated body, where there is one, and what follows.
spec fn line_end(e: AuditModel) -> Seq<char> {
    if e.body_truncated {
        ",\"body_truncated\":true"@ + line_fallback(e)
    } else {
        line_fallback(e)
    }
}

/// The log line, read from the left.
spec fn line_start(e: AuditModel) -> Seq<char> {
    "{\"host\":"@ + (json::quoted(e.host) + (",\"path\":"@ + (json::quoted(e.path) + (
    ",\"query\":"@ + (json::optional(e.query) + (",\"method\":"@ + (json::quoted(e.method) + (
    ",\"source_ip\":"@ + (json::quoted(e.source_ip) + (",\"action\":"@ + (json::quoted(e.action) + (
    ",\"blocked_rule\":"@ + (json::optional(e.blocked_rule) + (",\"blocked_severity\":"@ + (
    json::optional(e.blocked_severity) + (",\"blocked_detail\":"@ + (json::optional(
        e.blocked_detail,
    ) + (",\"would_block_rules\":"@ + (json::list(e.would_block_rules) + line_end(
        e,
    ))))))))))))))))))))
}

proof fn lemma_read_from_the_left(e: AuditModel)
    ensures
        log_line(e) == line_start(e),
{
    let truncated = if e.body_truncated {
        ",\"body_truncated\":true"@
    } else {
        Seq::empty()
    };
    let fallback = if e.config_fallback {
        ",\"config_fallback\":true"@
    } else {
        Seq::empty()
    };
    let labels = if e.labels.len() > 0 {
        ",\"labels\":"@ + json::object(e.labels)
    } else {
        Seq::empty()
    };
    let p0 = "{\"host\":"@;
    let p1 = p0 + json::quoted(e.host);
    let p2 = p1 + ",\"path\":"@;
    let p3 = p2 + json::quoted(e.path);
    let p4 = p3 + ",\"query\":"@;
    let p5 = p4 + json::optional(e.query);
    let p6 = p5 + ",\"method\":"@;
    let p7 = p6 + json::quoted(e.method);
    let p8 = p7 + ",\"source_ip\":"@;
    let p9 = p8 + json::quoted(e.source_ip);
    let p10 = p9 + ",\"action\":"@;
    let p11 = p10 + json::quoted(e.action);
    let p12 = p11 + ",\"blocked_rule\":"@;
    let p13 = p12 + json::optional(e.blocked_rule);
    let p14 = p13 + ",\"blocked_severity\":"@;
    let p15 = p14 + json::optional(e.blocked_severity);
    let p16 = p15 + ",\"blocked_detail\":"@;
    let p17 = p16 + json::optional(e.blocked_detail);
    let p18 = p17 + ",\"would_block_rules\":"@;
    let p19 = p18 + json::list(e.would_block_rules);
    let p20 = p19 + truncated;
    let p21 = p20 + fallback;
    let p22 = p21 + labels;
    let t23 = "}"@;
    let t22 = labels + t23;
    json::lemma_regroup(p21, labels, t23);
    let t21 = fallback + t22;
    json::lemma_regroup(p20, fallback, t22);
    let t20 = truncated + t21;
    json::lemma_regroup(p19, truncated, t21);
    let t19 = json::list(e.would_block_rules) + t20;
    json::lemma_regroup(p18, json::list(e.would_block_rules), t20);
    let t18 = ",\"would_block_rules\":"@ + t19;
    json::lemma_regroup(p17, ",\"would_block_rules\":"@, t19);
    let t17 = json::optional(e.blocked_detail) + t18;
    json::lemma_regroup(p16, json::optional(e.blocked_detail), t18);
    let t16 = ",\"blocked_detail\":"@ + t17;
    json::lemma_regroup(p15, ",\"blocked_detail\":"@, t17);
    let t15 = json::optional(e.blocked_severity) + t16;
    json::lemma_regroup(p14, json::optional(e.blocked_severity), t16);
    let t14 = ",\"blocked_severity\":"@ + t15;
    json::lemma_regroup(p13, ",\"blocked_severity\":"@, t15);
    let t13 = json::optional(e.blocked_rule) + t14;
    json::lemma_regroup(p12, json::optional(e.blocked_rule), t14);
    let t12 = ",\"blocked_rule\":"@ + t13;
    json::lemma_regroup(p11, ",\"blocked_rule\":"@, t13);
    let t11 = json::quoted(e.action) + t12;
    json::lemma_regroup(p10, json::quoted(e.action), t12);
    let t10 = ",\"action\":"@ + t11;
    json::lemma_regroup(p9, ",\"action\":"@, t11);
    let t9 = json::quoted(e.source_ip) + t10;
    json::lemma_regroup(p8, json::quoted(e.source_ip), t10);
    let t8 = ",\"source_ip\":"@ + t9;
    json::lemma_regroup(p7, ",\"source_ip\":"@, t9);
    let t7 = json::quoted(e.method) + t8;
    json::lemma_regroup(p6, json::quoted(e.method), t8);
    let t6 = ",\"method\":"@ + t7;
    json::lemma_regroup(p5, ",\"method\":"@, t7);
    let t5 = json::optional(e.query) + t6;
    json::lemma_regroup(p4, json::optional(e.query), t6);
    let t4 = ",\"query\":"@ + t5;
    json::lemma_regroup(p3, ",\"query\":"@, t5);
    let t3 = json::quoted(e.path) + t4;
    json::lemma_regroup(p2, json::quoted(e.path), t4);
    let t2 = ",\"path\":"@ + t3;
    json::lemma_regroup(p1, ",\"path\":"@, t3);
    let t1 = json::quoted(e.host) + t2;
    json::lemma_regroup(p0, json::quoted(e.host), t2);
    if e.labels.len() > 0 {
        json::lemma_regroup(",\"labels\":"@, json::object(e.labels), "}"@);
    } else {
        assert(labels + t23 =~= t23);
    }
    assert(t22 == line_labels(e));
    assert(fallback + t22 =~= line_fallback(e));
    assert(truncated + t21 =~= line_end(e));
}

proof fn lemma_end_tells(a: AuditModel, b: AuditModel)
    requires
        line_end(a) == line_end(b),
    ensures
        a.body_truncated == b.body_truncated,
        a.config_fallback == b.config_fallback,
        a.labels == b.labels,
{
    reveal_strlit(",\"labels\":");
    reveal_strlit(",\"body_truncated\":true");
    reveal_strlit(",\"config_fallback\":true");
    reveal_strlit("}");
    let s = line_end(a);
    assert(a.body_truncated == (s[0] == ',' && s[2] == 'b'));
    assert(b.body_truncated == (s[0] == ',' && s[2] == 'b'));
    if a.body_truncated {
        json::lemma_same_start(",\"body_truncated\":true"@, line_fallback(a), line_fallback(b));
    }
    let f = line_fallback(a);
    assert(a.config_fallback == (f[0] == ',' && f[2] == 'c'));
    assert(b.config_fallback == (f[0] == ',' && f[2] == 'c'));
    if a.config_fallback {
        json::lemma_same_start(",\"config_fallback\":true"@, line_labels(a), line_labels(b));
    }
    let l = line_labels(a);
    assert((a.labels.len() > 0) == (l[0] == ','));
    assert((b.labels.len() > 0) == (l[0] == ','));
    if a.labels.len() > 0 {
        json::lemma_same_start(
            ",\"labels\":"@,
            json::object(a.labels) + "}"@,
            json::object(b.labels) + "}"@,
        );
        json::lemma_object_ends(a.labels, "}"@, b.labels, "}"@);
    } else {
        assert(a.labels =~= b.labels);
    }
}

/// The log line of an entry tells the whole entry: no two entries that differ have
/// the same line.
pub proof fn law_log_line_tells_the_entry(a: AuditModel, b: AuditModel)
    requires
        log_line(a) == log_line(b),
    ensures
        a == b,
{
    lemma_read_from_the_left(a);
    lemma_read_from_the_left(b);
    let (a1, b1) = (
        ",\"would_block_rules\":"@ + (json::list(a.would_block_rules) + line_end(a)),
        ",\"would_block_rules\":"@ + (json::list(b.would_block_rules) + line_end(b)),
    );
    let (a2, b2) = (
        ",\"blocked_detail\":"@ + (json::optional(a.blocked_detail) + a1),
        ",\"blocked_detail\":"@ + (json::optional(b.blocked_detail) + b1),
    );
    let (a3, b3) = (
        ",\"blocked_severity\":"@ + (json::optional(a.blocked_severity) + a2),
        ",\"blocked_severity\":"@ + (json::optional(b.blocked_severity) + b2),
    );
    let (a4, b4) = (
        ",\"blocked_rule\":"@ + (json::optional(a.blocked_rule) + a3),
        ",\"blocked_rule\":"@ + (json::optional(b.blocked_rule) + b3),
    );
    let (a5, b5) = (
        ",\"action\":"@ + (json::quoted(a.action) + a4),
        ",\"action\":"@ + (json::quoted(b.action) + b4),
    );
    let (a6, b6) = (
        ",\"source_ip\":"@ + (json::quoted(a.source_ip) + a5),
        ",\"source_ip\":"@ + (json::quoted(b.source_ip) + b5),
    );
    let (a7, b7) = (
        ",\"method\":"@ + (json::quoted(a.method) + a6),
        ",\"method\":"@ + (json::quoted(b.method) + b6),
    );
    let (a8, b8) = (
        ",\"query\":"@ + (json::optional(a.query) + a7),
        ",\"query\":"@ + (json::optional(b.query) + b7),
    );
    let (a9, b9) = (
        ",\"path\":"@ + (json::quoted(a.path) + a8),
        ",\"path\":"@ + (json::quoted(b.path) + b8),
    );
    json::lemma_same_start(
        "{\"host\":"@,
        json::quoted(a.host) + a9,
        json::quoted(b.host) + b9,
    );
    json::lemma_quoted_ends(a.host, a9, b.host, b9);
    json::lemma_same_start(
        ",\"path\":"@,
        json::quoted(a.path) + a8,
        json::quoted(b.path) + b8,
    );
    json::lemma_quoted_ends(a.path, a8, b.path, b8);
    json::lemma_same_start(
        ",\"query\":"@,
        json::optional(a.query) + a7,
        json::optional(b.query) + b7,
    );
    json::lemma_optional_ends(a.query, a7, b.query, b7);
    json::lemma_same_start(
        ",\"method\":"@,
        json::quoted(a.method) + a6,
        json::quoted(b.method) + b6,
    );
    json::lemma_quoted_ends(a.method, a6, b.method, b6);
    json::lemma_same_start(
        ",\"source_ip\":"@,
        json::quoted(a.source_ip) + a5,
        json::quoted(b.source_ip) + b5,
    );
    json::lemma_quoted_ends(a.source_ip, a5, b.source_ip, b5);
    json::lemma_same_start(
        ",\"action\":"@,
        json::quoted(a.action) + a4,
        json::quoted(b.action) + b4,
    );
    json::lemma_quoted_ends(a.action, a4, b.action, b4);
    json::lemma_same_start(
        ",\"blocked_rule\":"@,
        json::optional(a.blocked_rule) + a3,
        json::optional(b.blocked_rule) + b3,
    );
    json::lemma_optional_ends(a.blocked_rule, a3, b.blocked_rule, b3);
    json::lemma_same_start(
        ",\"blocked_severity\":"@,
        json::optional(a.blocked_severity) + a2,
        json::optional(b.blocked_severity) + b2,
    );
    json::lemma_optional_ends(a.blocked_severity, a2, b.blocked_severity, b2);
    json::lemma_same_start(
        ",\"blocked_detail\":"@,
        json::optional(a.blocked_detail) + a1,
        json::optional(b.blocked_detail) + b1,
    );
    json::lemma_optional_ends(a.blocked_detail, a1, b.blocked_detail, b1);
    json::lemma_same_start(
        ",\"would_block_rules\":"@,
        json::list(a.would_block_rules) + line_end(a),
        json::list(b.would_block_rules) + line_end(b),
    );
    json::lemma_list_ends(a.would_block_rules, line_end(a), b.would_block_rules, line_end(b));
    lemma_end_tells(a, b);
}

/// An entry names every reported verdict, in order, by its group and its rule.
pub proof fn law_entry_names_every_reported_verdict(
    req: RequestModel,
    d: Decision,
    label_entries: Seq<Pair>,
    i: int,
)
    requires
        0 <= i < d.would_block@.len(),
    ensures
        ({
            let e = entry_for(req, d, label_entries);
            let v = d.would_block@[i];
            &&& e.would_block_rules.len() == d.would_block@.len()
            &&& v.group == detectors::Group::Injection ==> e.would_block_rules[i] == "injection"@ + "/"@
                + v.rule@
            &&& v.group == detectors::Group::Signatures ==> e.would_block_rules[i] == "signatures"@ + "/"@
                + v.rule@
            &&& v.group == detectors::Group::Structure ==> e.would_block_rules[i] == "structural"@ + "/"@
                + v.rule@
            &&& v.group == detectors::Group::Reputation ==> e.would_block_rules[i] == "reputation"@ + "/"@
                + v.rule@
        }),
{
}

/// An entry says what was asked for, by whom, and what came of it.
pub proof fn law_entry_tells_the_request(
    req: RequestModel,
    d: Decision,
    label_entries: Seq<Pair>,
)
    ensures
        ({
            let e = entry_for(req, d, label_entries);
            &&& e.host == req.host && e.path == req.path && e.method == req.method
            &&& e.query == req.raw_query && e.source_ip == req.source_ip.text()
            &&& e.body_truncated == req.body_truncated
            &&& d.action == Action::Block ==> e.action == "block"@
            &&& d.action == Action::Allow ==> e.action == "allow"@
            &&& e.labels.len() == label_entries.len()
            &&& d.blocked_by is None ==> e.blocked_rule is None && e.blocked_severity is None
                && e.blocked_detail is None
            &&& d.blocked_by matches Some(v) ==> e.blocked_detail == Some(v.detail@)
                && e.blocked_severity == Some(v.severity.tag()) && e.blocked_rule == Some(
                v.group.tag() + "/"@ + v.rule@,
            )
        }),
{
}

} // verus!
