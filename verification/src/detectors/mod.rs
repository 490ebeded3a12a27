//! Verdicts, the groups they belong to, and the detectors that give them.
use vstd::prelude::*;

use crate::request::{Request, RequestModel};

use self::injection::InjectionDetector;
use self::reputation::ReputationDetector;
use self::signatures::SignatureDetector;
use self::structural::StructuralDetector;

pub mod injection;
pub mod reputation;
pub mod signatures;
pub mod structural;

verus! {

/// A family of related detectors.
#[derive(Debug, Clone, Copy, PartialEq, Eq, Structural)]
pub enum Group {
    /// SQL injection and cross-site scripting.
    Injection,
    /// Literal bad patterns: path traversal, command execution, scanners.
    Signatures,
    /// Anomalies of the request's shape.
    Structure,
    /// Rate limiting and the deny list.
    Reputation,
}

impl Group {
    /// The tag of this group in audit logs and configuration keys.
    pub open spec fn tag(self) -> Seq<char> {
        match self {
            Group::Injection => "injection"@,
            Group::Signatures => "signatures"@,
            Group::Structure => "structural"@,
            Group::Reputation => "reputation"@,
        }
    }

    pub fn as_str(&self) -> (r: &'static str)
        ensures
            r@ == self.tag(),
    {
        match self {
            Group::Injection => "injection",
            Group::Signatures => "signatures",
            Group::Structure => "structural",
            Group::Reputation => "reputation",
        }
    }
}

/// How serious a verdict is, from least to most.
#[derive(Debug, Clone, Copy, PartialEq, Eq, PartialOrd, Ord, Structural)]
pub enum Severity {
    /// Informational.
    Low,
    /// Worth a look.
    Medium,
    /// A strong signal of malice.
    High,
    /// A definite attack.
    Critical,
}

impl Severity {
    /// The place on the severity ladder.
    pub open spec fn rank(self) -> int {
        match self {
            Severity::Low => 0,
            Severity::Medium => 1,
            Severity::High => 2,
            Severity::Critical => 3,
        }
    }

    pub fn level(&self) -> (r: u8)
        ensures
            r == self.rank(),
    {
        match self {
            Severity::Low => 0,
            Severity::Medium => 1,
            Severity::High => 2,
            Severity::Critical => 3,
        }
    }

    /// The tag of this severity in audit logs.
    pub open spec fn tag(self) -> Seq<char> {
        match self {
            Severity::Low => "low"@,
            Severity::Medium => "medium"@,
            Severity::High => "high"@,
            Severity::Critical => "critical"@,
        }
    }

    pub fn as_str(&self) -> (r: &'static str)
        ensures
            r@ == self.tag(),
    {
        match self {
            Severity::Low => "low",
            Severity::Medium => "medium",
            Severity::High => "high",
            Severity::Critical => "critical",
        }
    }
}

/// One detection.
#[derive(Debug)]
pub struct Verdict {
    /// The group of the detector that gave it.
    pub group: Group,
    /// The name of the rule that matched.
    pub rule: &'static str,
    /// How serious it is.
    pub severity: Severity,
    /// What was detected, and where.
    pub detail: String,
}

/// What a verdict says.
pub struct VerdictView {
    pub group: Group,
    pub rule: Seq<char>,
    pub severity: Severity,
    pub detail: Seq<char>,
}

impl View for Verdict {
    type V = VerdictView;

    open spec fn view(&self) -> VerdictView {
        VerdictView {
            group: self.group,
            rule: self.rule@,
            severity: self.severity,
            detail: self.detail@,
        }
    }
}

/// What a list of verdicts says.
pub open spec fn verdict_views(vs: Seq<Verdict>) -> Seq<VerdictView> {
    vs.map_values(|v: Verdict| v@)
}

/// One verdict where the condition holds, none where it does not.
pub open spec fn when(condition: bool, verdict: VerdictView) -> Seq<VerdictView> {
    if condition {
        seq![verdict]
    } else {
        Seq::empty()
    }
}

/// A detector inspects a request and gives any number of verdicts.
pub trait Detector: Send + Sync {
    /// The group this detector belongs to.
    spec fn group_spec(&self) -> Group;

    /// The invariant of the detector's state.
    spec fn valid(&self) -> bool;

    /// What this detector, in its present state, may do with a request: the
    /// verdicts that it may give, and the state that it is in afterwards. A
    /// detector that reads no clock may do exactly one thing.
    spec fn may_react(
        &self,
        req: RequestModel,
        verdicts: Seq<VerdictView>,
        after: &Self,
    ) -> bool;

    fn group(&self) -> (g: Group)
        ensures
            g == self.group_spec(),
    ;

    fn inspect(&mut self, req: &Request) -> (r: Vec<Verdict>)
        requires
            old(self).valid(),
        ensures
            final(self).valid(),
            final(self).group_spec() == old(self).group_spec(),
            old(self).may_react(req@, verdict_views(r@), &*final(self)),
    ;
}

/// Holds every detector and runs those that are enabled.
pub struct Engine<D: Detector> {
    /// The detectors, in the order in which they run.
    pub detectors: Vec<D>,
}

/// The verdicts of all detectors, one after the other.
pub open spec fn concatenated(parts: Seq<Seq<VerdictView>>) -> Seq<VerdictView>
    decreases parts.len(),
{
    if parts.len() == 0 {
        Seq::empty()
    } else {
        concatenated(parts.drop_last()) + parts.last()
    }
}

/// What running the enabled detectors over a request may do: `parts[i]` are the
/// verdicts of detector `i`, and `after[i]` is the state it is left in. One
/// whose group is not enabled gives nothing and stays as it was.
pub open spec fn may_run<D: Detector>(
    before: Seq<D>,
    req: RequestModel,
    enabled: Seq<Group>,
    parts: Seq<Seq<VerdictView>>,
    after: Seq<D>,
) -> bool {
    &&& parts.len() == before.len()
    &&& after.len() == before.len()
    &&& forall|i: int|
        0 <= i < before.len() ==> may_run_at(
            before[i],
            req,
            enabled,
            #[trigger] parts[i],
            after[i],
        )
}

/// What a run over a request may do to one detector.
pub open spec fn may_run_at<D: Detector>(
    before: D,
    req: RequestModel,
    enabled: Seq<Group>,
    part: Seq<VerdictView>,
    after: D,
) -> bool {
    &&& after.group_spec() == before.group_spec()
    &&& if enabled.contains(before.group_spec()) {
        before.may_react(req, part, &after)
    } else {
        part == Seq::<VerdictView>::empty() && after == before
    }
}

/// Every detector's invariant holds.
pub open spec fn all_valid<D: Detector>(detectors: Seq<D>) -> bool {
    forall|i: int| 0 <= i < detectors.len() ==> (#[trigger] detectors[i]).valid()
}

/// Whether a group is among those enabled.
pub fn contains_group(enabled: &[Group], g: Group) -> (r: bool)
    ensures
        r == enabled@.contains(g),
{
    let mut i: usize = 0;
    while i < enabled.len()
        invariant
            i <= enabled@.len(),
            forall|k: int| 0 <= k < i ==> enabled@[k] != g,
        decreases enabled@.len() - i,
    {
        if enabled[i] == g {
            assert(enabled@[i as int] == g);
            return true;
        }
        i = i + 1;
    }
    false
}

impl<D: Detector> Engine<D> {
    /// An engine with these detectors.
    pub fn new(detectors: Vec<D>) -> (r: Engine<D>)
        ensures
            r.detectors@ == detectors@,
    {
        Engine { detectors }
    }

    /// Runs the detectors whose group is enabled, in order, and returns all
    /// their verdicts. The other detectors are not touched.
    pub fn inspect(&mut self, req: &Request, enabled: &[Group]) -> (r: Vec<Verdict>)
        requires
            all_valid(old(self).detectors@),
        ensures
            all_valid(final(self).detectors@),
            exists|parts: Seq<Seq<VerdictView>>|
                #![trigger concatenated(parts)]
                may_run(
                    old(self).detectors@,
                    req@,
                    enabled@,
                    parts,
                    final(self).detectors@,
                ) && verdict_views(r@) == concatenated(parts),
    {
        let ghost before = self.detectors@;
        let ghost mut parts: Seq<Seq<VerdictView>> = Seq::empty();
        let mut out: Vec<Verdict> = Vec::new();
        let n: usize = self.detectors.len();
        let mut i: usize = 0;
        assert(verdict_views(out@) =~= concatenated(parts));
        while i < n
            invariant
                i <= n == before.len(),
                self.detectors@.len() == n,
                parts.len() == i,
                all_valid(self.detectors@),
                all_valid(before),
                verdict_views(out@) == concatenated(parts),
                forall|k: int| i <= k < n ==> self.detectors@[k] == before[k],
                forall|k: int|
                    0 <= k < i ==> may_run_at(
                        before[k],
                        req@,
                        enabled@,
                        #[trigger] parts[k],
                        self.detectors@[k],
                    ),
            decreases n - i,
        {
            let ghost done = concatenated(parts);
            let ghost sofar = out@;
            let ghost here = self.detectors@;
            let ghost old_parts = parts;
            assert(self.detectors@[i as int] == before[i as int]);
            if contains_group(enabled, self.detectors[i].group()) {
                let mut found = self.detectors[i].inspect(req);
                let ghost part = verdict_views(found@);
                let ghost found_view = found@;
                out.append(&mut found);
                proof {
                    assert(out@ == sofar + found_view);
                    assert(verdict_views(out@) =~= verdict_views(sofar) + part);
                    assert(parts.push(part).drop_last() =~= parts);
                    parts = parts.push(part);
                }
            } else {
                proof {
                    let part = Seq::<VerdictView>::empty();
                    assert(parts.push(part).drop_last() =~= parts);
                    parts = parts.push(part);
                    assert(concatenated(parts) =~= done);
                }
            }
            assert forall|k: int| 0 <= k < i + 1 implies may_run_at(
                before[k],
                req@,
                enabled@,
                #[trigger] parts[k],
                self.detectors@[k],
            ) by {
                if k < i {
                    assert(parts[k] == old_parts[k]);
                    assert(self.detectors@[k] == here[k]);
                }
            }
            i = i + 1;
        }
        assert(may_run(before, req@, enabled@, parts, self.detectors@));
        out
    }
}

/// One of the detectors of this library.
pub enum BuiltDetector {
    Injection(InjectionDetector),
    Signatures(SignatureDetector),
    Structure(StructuralDetector),
    Reputation(ReputationDetector),
}

impl Detector for BuiltDetector {
    open spec fn group_spec(&self) -> Group {
        match *self {
            BuiltDetector::Injection(d) => d.group_spec(),
            BuiltDetector::Signatures(d) => d.group_spec(),
            BuiltDetector::Structure(d) => d.group_spec(),
            BuiltDetector::Reputation(d) => d.group_spec(),
        }
    }

    open spec fn valid(&self) -> bool {
        match *self {
            BuiltDetector::Injection(d) => d.valid(),
            BuiltDetector::Signatures(d) => d.valid(),
            BuiltDetector::Structure(d) => d.valid(),
            BuiltDetector::Reputation(d) => d.valid(),
        }
    }

    open spec fn may_react(
        &self,
        req: RequestModel,
        verdicts: Seq<VerdictView>,
        after: &Self,
    ) -> bool {
        match (*self, *after) {
            (BuiltDetector::Injection(d), BuiltDetector::Injection(e)) => d.may_react(
                req,
                verdicts,
                &e,
            ),
            (BuiltDetector::Signatures(d), BuiltDetector::Signatures(e)) => d.may_react(
                req,
                verdicts,
                &e,
            ),
            (BuiltDetector::Structure(d), BuiltDetector::Structure(e)) => d.may_react(
                req,
                verdicts,
                &e,
            ),
            (BuiltDetector::Reputation(d), BuiltDetector::Reputation(e)) => d.may_react(
                req,
                verdicts,
                &e,
            ),
            _ => false,
        }
    }

    fn group(&self) -> (g: Group) {
        match self {
            BuiltDetector::Injection(d) => d.group(),
            BuiltDetector::Signatures(d) => d.group(),
            BuiltDetector::Structure(d) => d.group(),
            BuiltDetector::Reputation(d) => d.group(),
        }
    }

    fn inspect(&mut self, req: &Request) -> (r: Vec<Verdict>) {
        match self {
            BuiltDetector::Injection(d) => d.inspect(req),
            BuiltDetector::Signatures(d) => d.inspect(req),
            BuiltDetector::Structure(d) => d.inspect(req),
            BuiltDetector::Reputation(d) => d.inspect(req),
        }
    }
}

// ---------------------------------------------------------------------------
// Laws
// ---------------------------------------------------------------------------
/// The verdicts of several detectors are all their verdicts, one detector behind the
/// other: none is lost, none is added, and none changes its place.
pub proof fn law_verdicts_of_all_are_kept(a: Seq<Seq<VerdictView>>, b: Seq<Seq<VerdictView>>, p: Seq<
    VerdictView,
>)
    ensures
        concatenated(a + b) == concatenated(a) + concatenated(b),
        concatenated(seq![p]) == p,
    decreases b.len(),
{
    reveal_with_fuel(concatenated, 2);
    assert(seq![p].drop_last() =~= Seq::<Seq<VerdictView>>::empty());
    assert(concatenated(seq![p]) =~= p);
    if b.len() == 0 {
        assert(a + b =~= a);
        assert(concatenated(a) + concatenated(b) =~= concatenated(a));
    } else {
        assert((a + b).drop_last() =~= a + b.drop_last());
        assert((a + b).last() == b.last());
        law_verdicts_of_all_are_kept(a, b.drop_last(), p);
        assert(concatenated(a + b) =~= concatenated(a) + concatenated(b));
    }
}

/// The verdicts of a detector that runs are among those of the engine, whichever
/// detector it is.
pub proof fn law_no_detector_is_left_out(parts: Seq<Seq<VerdictView>>, i: int, v: VerdictView)
    requires
        0 <= i < parts.len(),
        parts[i].contains(v),
    ensures
        concatenated(parts).contains(v),
    decreases parts.len(),
{
    let front = parts.drop_last();
    vstd::seq_lib::lemma_seq_concat_contains_all_elements(concatenated(front), parts.last(), v);
    if i < parts.len() - 1 {
        assert(front[i] == parts[i]);
        law_no_detector_is_left_out(front, i, v);
    }
}

/// Severities and groups have each their own place and name.
pub proof fn law_names_and_ranks_tell_apart(a: Severity, b: Severity, g: Group, h: Group)
    ensures
        a.rank() == b.rank() ==> a == b,
        a.tag() == b.tag() ==> a == b,
        g.tag() == h.tag() ==> g == h,
        Severity::Low.rank() < Severity::Medium.rank() < Severity::High.rank()
            < Severity::Critical.rank(),
        Severity::Low.tag() == "low"@ && Severity::Medium.tag() == "medium"@
            && Severity::High.tag() == "high"@ && Severity::Critical.tag() == "critical"@,
        Group::Injection.tag() == "injection"@ && Group::Signatures.tag() == "signatures"@
            && Group::Structure.tag() == "structural"@ && Group::Reputation.tag()
            == "reputation"@,
{
    reveal_strlit("low");
    reveal_strlit("medium");
    reveal_strlit("high");
    reveal_strlit("critical");
    reveal_strlit("injection");
    reveal_strlit("signatures");
    reveal_strlit("structural");
    reveal_strlit("reputation");
    assert("low"@.len() == 3 && "medium"@.len() == 6 && "high"@.len() == 4 && "critical"@.len()
        == 8);
    assert("injection"@[0] == 'i' && "signatures"@[1] == 'i' && "structural"@[1] == 't'
        && "reputation"@[0] == 'r');
    assert("injection"@.len() == 9 && "signatures"@.len() == 10 && "structural"@.len() == 10
        && "reputation"@.len() == 10);
    assert("signatures"@[0] == 's');
}

} // verus!
