//! What the proxy records of a request.
use vstd::prelude::*;

use crate::audit;
use crate::detectors::{Group, Verdict};
use crate::policy::{Action, Decision};
use crate::request;
use crate::sidecar::request_model::{RequestView, ViewModel};
use crate::text;
use crate::text::{copy_text, join3};

verus! {

/// One entry of the audit log.
#[derive(Debug, PartialEq, Eq)]
pub struct AuditEntry {
    pub host: String,
    pub path: String,
    /// The query as it came, if any.
    pub query: Option<String>,
    pub method: String,
    pub source_ip: String,
    pub action: String,
    /// The rule that blocked, if any.
    pub blocked_rule: Option<String>,
    /// Its severity.
    pub blocked_severity: Option<String>,
    /// What it saw.
    pub blocked_detail: Option<String>,
    /// The rules that did not block.
    pub would_block_rules: Vec<String>,
}

/// What an entry says.
#[verifier::ext_equal]
pub struct EntryModel {
    pub host: Seq<char>,
    pub path: Seq<char>,
    pub query: Option<Seq<char>>,
    pub method: Seq<char>,
    pub source_ip: Seq<char>,
    pub action: Seq<char>,
    pub blocked_rule: Option<Seq<char>>,
    pub blocked_severity: Option<Seq<char>>,
    pub blocked_detail: Option<Seq<char>>,
    pub would_block_rules: Seq<Seq<char>>,
}

impl View for AuditEntry {
    type V = EntryModel;

    open spec fn view(&self) -> EntryModel {
        EntryModel {
            host: self.host@,
            path: self.path@,
            query: audit::opt_view(self.query),
            method: self.method@,
            source_ip: self.source_ip@,
            action: self.action@,
            blocked_rule: audit::opt_view(self.blocked_rule),
            blocked_severity: audit::opt_view(self.blocked_severity),
            blocked_detail: audit::opt_view(self.blocked_detail),
            would_block_rules: text::texts(self.would_block_rules@),
        }
    }
}

/// The entry for a decision on a request.
pub open spec fn entry_for(v: ViewModel, d: Decision) -> EntryModel {
    EntryModel {
        host: v.host,
        path: v.path,
        query: v.raw_query,
        method: v.method,
        source_ip: v.source_ip.text(),
        action: match d.action {
            Action::Allow => "allow"@,
            Action::Block => "block"@,
        },
        blocked_rule: match d.blocked_by {
            Some(b) => Some(audit::rule_name(b)),
            None => None,
        },
        blocked_severity: match d.blocked_by {
            Some(b) => Some(b.severity.tag()),
            None => None,
        },
        blocked_detail: match d.blocked_by {
            Some(b) => Some(b.detail@),
            None => None,
        },
        would_block_rules: audit::rule_names(d.would_block@),
    }
}

fn rule_text(v: &Verdict) -> (r: String)
    ensures
        r@ == audit::rule_name(*v),
{
    join3(v.group.as_str(), "/", v.rule)
}

impl AuditEntry {
    /// The entry for a decision on a request.
    pub fn from(req: &RequestView, decision: &Decision) -> (r: AuditEntry)
        ensures
            r@ == entry_for(req@, *decision),
    {
        let mut rules: Vec<String> = Vec::new();
        let ghost all = audit::rule_names(decision.would_block@);
        let mut i: usize = 0;
        assert(text::texts(rules@) =~= all.take(0));
        while i < decision.would_block.len()
            invariant
                i <= decision.would_block@.len(),
                all == audit::rule_names(decision.would_block@),
                text::texts(rules@) == all.take(i as int),
            decreases decision.would_block@.len() - i,
        {
            let ghost before = text::texts(rules@);
            let name = rule_text(&decision.would_block[i]);
            let ghost view = name@;
            rules.push(name);
            assert(text::texts(rules@) =~= before.push(view));
            assert(all.take(i + 1) =~= all.take(i as int).push(view));
            i = i + 1;
        }
        assert(all.take(i as int) =~= all);
        AuditEntry {
            host: copy_text(&req.host),
            path: copy_text(&req.path),
            query: match req.raw_query() {
                Some(q) => Some(copy_text(q)),
                None => None,
            },
            method: copy_text(&req.method),
            source_ip: req.source_ip.to_text(),
            action: match decision.action {
                Action::Allow => copy_text("allow"),
                Action::Block => copy_text("block"),
            },
            blocked_rule: match &decision.blocked_by {
                Some(b) => Some(rule_text(b)),
                None => None,
            },
            blocked_severity: match &decision.blocked_by {
                Some(b) => Some(copy_text(b.severity.as_str())),
                None => None,
            },
            blocked_detail: match &decision.blocked_by {
                Some(b) => Some(copy_text(&b.detail)),
                None => None,
            },
            would_block_rules: rules,
        }
    }

    /// Whether there is anything to log.
    pub fn is_noteworthy(&self) -> (r: bool)
        ensures
            r == (self@.blocked_rule is Some || self@.would_block_rules.len() > 0),
    {
        self.blocked_rule.is_some() || self.would_block_rules.len() > 0
    }
}

/// The groups of a decision's verdicts: first those that did not block, then the
/// one that did.
pub open spec fn hit_groups(d: Decision) -> Seq<Group> {
    let rest = d.would_block@.map_values(|v: Verdict| v.group);
    match d.blocked_by {
        Some(b) => rest.push(b.group),
        None => rest,
    }
}

/// The groups whose hits are counted for a decision.
pub fn group_hits(d: &Decision) -> (r: Vec<Group>)
    ensures
        r@ == hit_groups(*d),
{
    let ghost all = d.would_block@.map_values(|v: Verdict| v.group);
    let mut out: Vec<Group> = Vec::new();
    let mut i: usize = 0;
    while i < d.would_block.len()
        invariant
            i <= d.would_block@.len(),
            all == d.would_block@.map_values(|v: Verdict| v.group),
            out@ == all.take(i as int),
        decreases d.would_block@.len() - i,
    {
        out.push(d.would_block[i].group);
        i = i + 1;
        assert(out@ =~= all.take(i as int));
    }
    assert(all.take(i as int) =~= all);
    if let Some(b) = &d.blocked_by {
        out.push(b.group);
    }
    out
}

/// Every verdict of a decision is counted once.
pub proof fn law_every_verdict_is_counted(d: Decision)
    ensures
        hit_groups(d).len() == d.would_block@.len() + if d.blocked_by is Some {
            1nat
        } else {
            0nat
        },
{
}

/// The groups that are counted are those of the reported verdicts, in order, and then that
/// of the verdict that blocks.
pub proof fn law_groups_are_counted_in_order(d: Decision, i: int)
    requires
        0 <= i < d.would_block@.len(),
    ensures
        hit_groups(d)[i] == d.would_block@[i].group,
        d.blocked_by matches Some(b) ==> hit_groups(d).last() == b.group,
{
}

/// An entry says what was asked for, by whom, and what came of it.
pub proof fn law_entry_tells_the_request(v: ViewModel, d: Decision, i: int)
    ensures
        ({
            let e = entry_for(v, d);
            &&& e.host == v.host && e.path == v.path && e.method == v.method
            &&& e.query == v.raw_query && e.source_ip == v.source_ip.text()
            &&& d.action == Action::Block ==> e.action == "block"@
            &&& d.action == Action::Allow ==> e.action == "allow"@
            &&& e.would_block_rules.len() == d.would_block@.len()
            &&& 0 <= i < d.would_block@.len() ==> e.would_block_rules[i]
                == d.would_block@[i].group.tag() + "/"@ + d.would_block@[i].rule@
            &&& d.blocked_by is None ==> e.blocked_rule is None && e.blocked_severity is None
                && e.blocked_detail is None
            &&& d.blocked_by matches Some(b) ==> e.blocked_detail == Some(b.detail@)
                && e.blocked_severity == Some(b.severity.tag()) && e.blocked_rule == Some(
                b.group.tag() + "/"@ + b.rule@,
            )
        }),
{
}

} // verus!
