//! Which envelopes a subscriber gets.
use vstd::prelude::*;

use crate::audit;
use crate::detectors;
use crate::labels;
use crate::labels::Labels;
use crate::relay::config::{Severity, SubscriberFilter};
use crate::relay::envelope::{Envelope, EnvelopeModel};
use crate::relay::event;
use crate::relay::event::{AuditEvent, Member, MemberView};
use crate::request;
use crate::request::Pair;
use crate::text::{chars_of, same_text};

verus! {

// ---------------------------------------------------------------------------
// Patterns
// ---------------------------------------------------------------------------
/// The sign that stands for any text.
pub const WILDCARD: char = '*';

/// Whether a text has the form of a pattern: the wildcard stands for any text,
/// also for none, and every other character for itself.
pub open spec fn glob(p: Seq<char>, s: Seq<char>) -> bool
    decreases p.len() + s.len(),
{
    if p.len() == 0 {
        s.len() == 0
    } else if p[0] == WILDCARD {
        glob(p.skip(1), s) || (s.len() > 0 && glob(p, s.skip(1)))
    } else {
        s.len() > 0 && s[0] == p[0] && glob(p.skip(1), s.skip(1))
    }
}

/// Whether a pattern accepts a text. The empty pattern accepts every text.
pub open spec fn accepts(pattern: Seq<char>, s: Seq<char>) -> bool {
    pattern.len() == 0 || glob(pattern, s)
}

/// No wildcard among the characters.
pub open spec fn is_literal(p: Seq<char>) -> bool {
    forall|i: int| 0 <= i < p.len() ==> #[trigger] p[i] != WILDCARD
}

/// Some end of the text has the form of the pattern.
spec fn fits_an_end(p: Seq<char>, s: Seq<char>) -> bool {
    exists|k: int| 0 <= k <= s.len() && #[trigger] glob(p, s.skip(k))
}

/// Behind a wildcard, the rest of the pattern fits some end of the text.
proof fn lemma_wildcard(p: Seq<char>, s: Seq<char>)
    requires
        p.len() > 0,
        p[0] == WILDCARD,
    ensures
        glob(p, s) == fits_an_end(p.skip(1), s),
    decreases s.len(),
{
    let rest = p.skip(1);
    assert(s.skip(0) =~= s);
    assert(glob(rest, s) == glob(rest, s.skip(0)));
    assert(glob(p, s) == (glob(rest, s) || (s.len() > 0 && glob(p, s.skip(1)))));
    if s.len() > 0 {
        lemma_wildcard(p, s.skip(1));
        if fits_an_end(p.skip(1), s.skip(1)) {
            let k = choose|k: int|
                0 <= k <= s.skip(1).len() && #[trigger] glob(p.skip(1), s.skip(1).skip(k));
            assert(s.skip(1).skip(k) =~= s.skip(k + 1));
        }
        if fits_an_end(p.skip(1), s) {
            let k = choose|k: int| 0 <= k <= s.len() && #[trigger] glob(p.skip(1), s.skip(k));
            if k > 0 {
                assert(s.skip(1).skip(k - 1) =~= s.skip(k));
            }
        }
    }
}

/// A pattern that begins with literal characters accepts just the texts that
/// begin with them and go on as the rest of the pattern says.
proof fn lemma_literal(lit: Seq<char>, rest: Seq<char>, s: Seq<char>)
    requires
        is_literal(lit),
    ensures
        glob(lit + rest, s) <==> {
            &&& lit.len() <= s.len()
            &&& s.take(lit.len() as int) == lit
            &&& glob(rest, s.skip(lit.len() as int))
        },
    decreases lit.len(),
{
    if lit.len() == 0 {
        assert(lit + rest =~= rest);
        assert(s.skip(0) =~= s);
        assert(s.take(0) =~= lit);
    } else {
        let p = lit + rest;
        assert(p[0] == lit[0]);
        assert(p.skip(1) =~= lit.skip(1) + rest);
        if s.len() > 0 {
            assert forall|i: int| 0 <= i < lit.skip(1).len() implies #[trigger] lit.skip(1)[i]
                != WILDCARD by {
                assert(lit[i + 1] != WILDCARD);
            }
            lemma_literal(lit.skip(1), rest, s.skip(1));
            if lit.len() <= s.len() {
                assert(s.skip(1).skip(lit.len() - 1) =~= s.skip(lit.len() as int));
                if s.take(lit.len() as int) == lit {
                    assert(s.take(lit.len() as int)[0] == s[0]);
                    assert(s.skip(1).take(lit.len() - 1) =~= lit.skip(1));
                }
                if s[0] == lit[0] && s.skip(1).take(lit.len() - 1) == lit.skip(1) {
                    assert forall|i: int| 0 <= i < lit.len() implies #[trigger] s[i] == lit[i] by {
                        if i > 0 {
                            assert(s.skip(1).take(lit.len() - 1)[i - 1] == lit.skip(1)[i - 1]);
                        }
                    }
                    assert(s.take(lit.len() as int) =~= lit);
                }
            }
        }
    }
}

/// What follows a wildcard may also be found further to the left.
proof fn lemma_wildcard_skips(p: Seq<char>, s: Seq<char>, from: int, at: int)
    requires
        p.len() > 0,
        p[0] == WILDCARD,
        0 <= from <= at <= s.len(),
        glob(p, s.skip(at)),
    ensures
        glob(p, s.skip(from)),
{
    lemma_wildcard(p, s.skip(at));
    lemma_wildcard(p, s.skip(from));
    let k = choose|k: int| 0 <= k <= s.skip(at).len() && #[trigger] glob(p.skip(1), s.skip(at).skip(k));
    assert(s.skip(from).skip(at - from + k) =~= s.skip(at).skip(k));
}

/// How far a search has come: behind the pattern's `i` characters the text's `j`
/// are used up, and the last wildcard, right before `star`, stood for the text
/// up to `mark`.
spec fn may_retry(p: Seq<char>, s: Seq<char>, star: int, mark: int) -> bool {
    exists|k: int| mark < k <= s.len() && #[trigger] glob(p.skip(star), s.skip(k))
}

spec fn is_reached(p: Seq<char>, s: Seq<char>, i: int, j: int, star: int, mark: int) -> bool {
    &&& 0 <= star <= i <= p.len()
    &&& 0 <= mark <= j <= s.len()
    &&& i - star == j - mark
    &&& is_literal(p.subrange(star, i))
    &&& s.subrange(mark, j) == p.subrange(star, i)
}

proof fn lemma_retry_fails_at_end(p: Seq<char>, s: Seq<char>, i: int, star: int, mark: int)
    requires
        is_reached(p, s, i, s.len() as int, star, mark),
    ensures
        !may_retry(p, s, star, mark),
{
    assert forall|k: int| mark < k <= s.len() implies !#[trigger] glob(p.skip(star), s.skip(k)) by {
        assert(p.skip(star) =~= p.subrange(star, i) + p.skip(i));
        lemma_literal(p.subrange(star, i), p.skip(i), s.skip(k));
    }
}

proof fn lemma_retry_is_needless(p: Seq<char>, s: Seq<char>, i: int, j: int, star: int, mark: int)
    requires
        is_reached(p, s, i, j, star, mark),
        i < p.len(),
        p[i] == WILDCARD,
        may_retry(p, s, star, mark),
    ensures
        glob(p.skip(i), s.skip(j)),
{
    let k = choose|k: int| mark < k <= s.len() && #[trigger] glob(p.skip(star), s.skip(k));
    let lit = p.subrange(star, i);
    assert(p.skip(star) =~= lit + p.skip(i));
    lemma_literal(lit, p.skip(i), s.skip(k));
    assert(s.skip(k).skip(lit.len() as int) =~= s.skip(k + lit.len()));
    lemma_wildcard_skips(p.skip(i), s, j, k + lit.len());
}

/// A pattern with wildcards.
#[derive(Debug, PartialEq, Eq)]
pub struct Glob {
    /// The pattern.
    pub pattern: Vec<char>,
}

impl Glob {
    /// The pattern that a text holds.
    pub fn new(pattern: &str) -> (r: Glob)
        ensures
            r.pattern@ == pattern@,
    {
        Glob { pattern: chars_of(pattern) }
    }

    /// Whether the pattern accepts a text.
    pub fn matches(&self, s: &str) -> (r: bool)
        ensures
            r == accepts(self.pattern@, s@),
    {
        if self.pattern.len() == 0 {
            return true;
        }
        let text = chars_of(s);
        glob_chars(&self.pattern, &text)
    }
}

fn glob_chars(p: &Vec<char>, s: &Vec<char>) -> (r: bool)
    ensures
        r == glob(p@, s@),
{
    let mut i: usize = 0;
    let mut j: usize = 0;
    let mut starred: bool = false;
    let mut star: usize = 0;
    let mut mark: usize = 0;
    assert(p@.skip(0) =~= p@);
    assert(s@.skip(0) =~= s@);
    assert(p@.subrange(0, 0) =~= s@.subrange(0, 0));
    while j < s.len()
        invariant
            is_reached(p@, s@, i as int, j as int, star as int, mark as int),
            glob(p@, s@) == (glob(p@.skip(i as int), s@.skip(j as int)) || (starred && may_retry(
                p@,
                s@,
                star as int,
                mark as int,
            ))),
        decreases s.len() - mark, p.len() - i,
    {
        let ghost here = p@.skip(i as int);
        let ghost left = s@.skip(j as int);
        if i < p.len() && p[i] == WILDCARD {
            proof {
                assert(here[0] == WILDCARD);
                lemma_wildcard(here, left);
                if starred && may_retry(p@, s@, star as int, mark as int) {
                    lemma_retry_is_needless(
                        p@,
                        s@,
                        i as int,
                        j as int,
                        star as int,
                        mark as int,
                    );
                }
                assert(glob(p@, s@) == glob(here, left));
                assert(here.skip(1) =~= p@.skip(i + 1));
                assert(left.skip(0) =~= left);
                if glob(here, left) {
                    let k = choose|k: int|
                        0 <= k <= left.len() && #[trigger] glob(here.skip(1), left.skip(k));
                    assert(left.skip(k) =~= s@.skip(j + k));
                    assert(k == 0 || may_retry(p@, s@, i + 1, j as int));
                }
                if glob(p@.skip(i + 1), left) {
                    assert(glob(here.skip(1), left.skip(0)));
                }
                if may_retry(p@, s@, i + 1, j as int) {
                    let k = choose|k: int|
                        j < k <= s@.len() && #[trigger] glob(p@.skip(i + 1), s@.skip(k));
                    assert(left.skip(k - j) =~= s@.skip(k));
                }
            }
            i = i + 1;
            starred = true;
            star = i;
            mark = j;
            assert(p@.subrange(star as int, i as int) =~= s@.subrange(mark as int, j as int));
        } else if i < p.len() && p[i] == s[j] {
            proof {
                assert(here[0] == left[0]);
                assert(here.skip(1) =~= p@.skip(i + 1));
                assert(left.skip(1) =~= s@.skip(j + 1));
                assert(p@.subrange(star as int, i + 1) =~= p@.subrange(star as int, i as int).push(
                    p@[i as int],
                ));
                assert(s@.subrange(mark as int, j + 1) =~= s@.subrange(mark as int, j as int).push(
                    s@[j as int],
                ));
            }
            i = i + 1;
            j = j + 1;
        } else {
            assert(!glob(here, left)) by {
                if i < p.len() {
                    assert(here[0] == p@[i as int]);
                    assert(left[0] == s@[j as int]);
                }
            }
            if !starred {
                return false;
            }
            proof {
                if may_retry(p@, s@, star as int, mark as int) {
                    let k = choose|k: int|
                        mark < k <= s@.len() && #[trigger] glob(p@.skip(star as int), s@.skip(k));
                    assert(k == mark + 1 || may_retry(p@, s@, star as int, mark + 1));
                }
                if may_retry(p@, s@, star as int, mark + 1) {
                    let k = choose|k: int|
                        mark + 1 < k <= s@.len() && #[trigger] glob(
                            p@.skip(star as int),
                            s@.skip(k),
                        );
                    assert(mark < k);
                }
                assert(glob(p@.skip(star as int), s@.skip(mark + 1)) ==> may_retry(
                    p@,
                    s@,
                    star as int,
                    mark as int,
                ));
            }
            mark = mark + 1;
            j = mark;
            i = star;
            assert(p@.subrange(star as int, i as int) =~= s@.subrange(mark as int, j as int));
        }
    }
    proof {
        lemma_retry_fails_at_end(p@, s@, i as int, star as int, mark as int);
        assert(s@.skip(j as int) =~= Seq::<char>::empty());
    }
    while i < p.len() && p[i] == WILDCARD
        invariant
            i <= p@.len(),
            glob(p@, s@) == glob(p@.skip(i as int), Seq::<char>::empty()),
        decreases p.len() - i,
    {
        proof {
            let here = p@.skip(i as int);
            let none = Seq::<char>::empty();
            assert(here[0] == WILDCARD);
            assert(here.skip(1) =~= p@.skip(i + 1));
        }
        i = i + 1;
    }
    assert(i < p@.len() ==> p@.skip(i as int)[0] == p@[i as int]);
    i == p.len()
}

// ---------------------------------------------------------------------------
// Filters
// ---------------------------------------------------------------------------
/// The severity of that name.
pub open spec fn severity_named(s: Seq<char>) -> Option<Severity> {
    if s == "low"@ {
        Some(Severity::Low)
    } else if s == "medium"@ {
        Some(Severity::Medium)
    } else if s == "high"@ {
        Some(Severity::High)
    } else if s == "critical"@ {
        Some(Severity::Critical)
    } else {
        None
    }
}

/// Reads the name of a severity.
pub fn parse_severity(s: &str) -> (r: Option<Severity>)
    ensures
        r == severity_named(s@),
{
    if same_text(s, "low") {
        Some(Severity::Low)
    } else if same_text(s, "medium") {
        Some(Severity::Medium)
    } else if same_text(s, "high") {
        Some(Severity::High)
    } else if same_text(s, "critical") {
        Some(Severity::Critical)
    } else {
        None
    }
}

/// Every label asked for is there, with that value.
pub open spec fn has_labels(wanted: Seq<Pair>, present: Seq<Pair>) -> bool {
    forall|i: int|
        0 <= i < wanted.len() ==> labels::value_of(present, (#[trigger] wanted[i]).0) == Some(
            wanted[i].1,
        )
}

/// The members of an event name a severity that is high enough.
pub open spec fn is_severe(least: Severity, members: Seq<(Seq<char>, MemberView)>) -> bool {
    match event::text_member(members, "blocked_severity"@) {
        Some(s) => severity_named(s) is Some && severity_named(s)->0.rank() >= least.rank(),
        None => false,
    }
}

/// An item of a list is a text that the pattern accepts.
pub open spec fn accepts_item(pattern: Seq<char>, item: Option<Seq<char>>) -> bool {
    item is Some && accepts(pattern, item->0)
}

/// One of the items of a list is a text that the pattern accepts.
pub open spec fn accepts_any(pattern: Seq<char>, items: Seq<Option<Seq<char>>>) -> bool {
    exists|i: int| 0 <= i < items.len() && accepts_item(pattern, #[trigger] items[i])
}

/// The rule that blocked, or one that would have blocked, fits the pattern.
pub open spec fn names_rule(pattern: Seq<char>, members: Seq<(Seq<char>, MemberView)>) -> bool {
    ||| accepts_item(pattern, event::text_member(members, "blocked_rule"@))
    ||| match event::member(members, "would_block_rules"@) {
        Some(MemberView::List(items)) => accepts_any(pattern, items),
        _ => false,
    }
}

/// Whether an envelope satisfies every clause of a filter.
pub open spec fn passes(
    wanted: Seq<Pair>,
    least: Option<Severity>,
    pattern: Option<Seq<char>>,
    e: EnvelopeModel,
) -> bool {
    &&& has_labels(wanted, e.labels)
    &&& least is Some ==> is_severe(least->0, e.event.members)
    &&& pattern is Some ==> names_rule(pattern->0, e.event.members)
}

/// A filter, ready for use.
#[derive(Debug)]
pub struct CompiledFilter {
    /// The labels that an envelope must have.
    pub labels: Labels,
    /// The least severity.
    pub severity_min: Option<Severity>,
    /// The pattern for the rule.
    pub rule_glob: Option<Glob>,
}

impl CompiledFilter {
    /// The pattern for the rule, as text.
    pub open spec fn pattern(&self) -> Option<Seq<char>> {
        match self.rule_glob {
            Some(g) => Some(g.pattern@),
            None => None,
        }
    }

    /// The filter that a configuration describes.
    pub fn compile(f: &SubscriberFilter) -> (r: CompiledFilter)
        ensures
            request::pairs(r.labels.entries@) == request::pairs(f.labels.entries@),
            r.severity_min == f.severity_min,
            r.pattern() == audit::opt_view(f.blocked_rule_pattern),
    {
        CompiledFilter {
            labels: f.labels.copy(),
            severity_min: f.severity_min,
            rule_glob: match &f.blocked_rule_pattern {
                Some(p) => Some(Glob::new(p)),
                None => None,
            },
        }
    }

    /// Whether an envelope satisfies every clause.
    pub fn matches(&self, env: &Envelope) -> (r: bool)
        ensures
            r == passes(
                request::pairs(self.labels.entries@),
                self.severity_min,
                self.pattern(),
                env@,
            ),
    {
        if !labels_match(&self.labels, &env.labels) {
            return false;
        }
        if let Some(min) = self.severity_min {
            let severity = match env.event.get_text("blocked_severity") {
                Some(s) => parse_severity(s),
                None => None,
            };
            match severity {
                Some(s) => {
                    if s.level() < min.level() {
                        return false;
                    }
                },
                None => {
                    return false;
                },
            }
        }
        match &self.rule_glob {
            Some(g) => rule_matches(g, &env.event),
            None => true,
        }
    }
}

fn labels_match(wanted: &Labels, present: &Labels) -> (r: bool)
    ensures
        r == has_labels(request::pairs(wanted.entries@), request::pairs(present.entries@)),
{
    let ghost all = request::pairs(wanted.entries@);
    let ghost have = request::pairs(present.entries@);
    let mut i: usize = 0;
    while i < wanted.entries.len()
        invariant
            i <= wanted.entries@.len(),
            all == request::pairs(wanted.entries@),
            have == request::pairs(present.entries@),
            forall|k: int|
                0 <= k < i ==> labels::value_of(have, (#[trigger] all[k]).0) == Some(all[k].1),
        decreases wanted.entries@.len() - i,
    {
        assert(all[i as int] == (wanted.entries@[i as int].0@, wanted.entries@[i as int].1@));
        match present.get(&wanted.entries[i].0) {
            Some(v) => {
                if !same_text(v, &wanted.entries[i].1) {
                    return false;
                }
            },
            None => {
                return false;
            },
        }
        i = i + 1;
    }
    true
}

fn rule_matches(g: &Glob, e: &AuditEvent) -> (r: bool)
    ensures
        r == names_rule(g.pattern@, e@.members),
{
    if let Some(s) = e.get_text("blocked_rule") {
        if g.matches(s) {
            return true;
        }
    }
    match e.get("would_block_rules") {
        Some(Member::List(items)) => any_matches(g, items),
        _ => false,
    }
}

fn any_matches(g: &Glob, items: &Vec<Option<String>>) -> (r: bool)
    ensures
        r == accepts_any(g.pattern@, event::opt_texts(items@)),
{
    let ghost views = event::opt_texts(items@);
    let mut i: usize = 0;
    while i < items.len()
        invariant
            i <= items@.len(),
            views == event::opt_texts(items@),
            forall|k: int| 0 <= k < i ==> !accepts_item(g.pattern@, #[trigger] views[k]),
        decreases items@.len() - i,
    {
        assert(views[i as int] == audit::opt_view(items@[i as int]));
        if let Some(s) = &items[i] {
            if g.matches(s) {
                assert(accepts_item(g.pattern@, views[i as int]));
                return true;
            }
        }
        i = i + 1;
    }
    false
}

// ---------------------------------------------------------------------------
// Laws
// ---------------------------------------------------------------------------
/// A filter without clauses lets every envelope pass.
pub proof fn law_empty_filter_passes_everything(e: EnvelopeModel)
    ensures
        passes(Seq::empty(), None, None, e),
{
}

/// Labels that are added to an envelope, under names that were free, never keep it
/// from passing.
pub proof fn law_added_labels_still_pass(
    wanted: Seq<Pair>,
    least: Option<Severity>,
    pattern: Option<Seq<char>>,
    e: EnvelopeModel,
    more: EnvelopeModel,
)
    requires
        passes(wanted, least, pattern, e),
        more.event == e.event,
        forall|k: Seq<char>| #[trigger]
            labels::value_of(e.labels, k) is Some ==> labels::value_of(more.labels, k)
                == labels::value_of(e.labels, k),
    ensures
        passes(wanted, least, pattern, more),
{
    assert forall|i: int| 0 <= i < wanted.len() implies labels::value_of(
        more.labels,
        (#[trigger] wanted[i]).0,
    ) == Some(wanted[i].1) by {
        assert(labels::value_of(e.labels, wanted[i].0) is Some);
    }
}

/// A further clause never lets an envelope pass that did not pass before.
pub proof fn law_clauses_only_narrow(
    wanted: Seq<Pair>,
    more: Seq<Pair>,
    least: Option<Severity>,
    pattern: Option<Seq<char>>,
    e: EnvelopeModel,
)
    requires
        passes(wanted + more, least, pattern, e),
    ensures
        passes(wanted, least, pattern, e),
        passes(wanted, None, pattern, e),
        passes(wanted, least, None, e),
{
    assert forall|i: int| 0 <= i < wanted.len() implies labels::value_of(
        e.labels,
        (#[trigger] wanted[i]).0,
    ) == Some(wanted[i].1) by {
        assert((wanted + more)[i] == wanted[i]);
    }
}

/// What passes a higher floor passes a lower one.
pub proof fn law_lower_floor_passes_more(
    wanted: Seq<Pair>,
    high: Severity,
    low: Severity,
    pattern: Option<Seq<char>>,
    e: EnvelopeModel,
)
    requires
        low.rank() <= high.rank(),
        passes(wanted, Some(high), pattern, e),
    ensures
        passes(wanted, Some(low), pattern, e),
{
}

/// Without a severity in the event, no floor is met, not even the lowest.
pub proof fn law_missing_severity_fails_any_floor(
    wanted: Seq<Pair>,
    least: Severity,
    pattern: Option<Seq<char>>,
    e: EnvelopeModel,
)
    requires
        event::text_member(e.event.members, "blocked_severity"@) is None,
    ensures
        !passes(wanted, Some(least), pattern, e),
{
}

/// A pattern without wildcards accepts just itself.
pub proof fn law_literal_pattern(p: Seq<char>, s: Seq<char>)
    requires
        is_literal(p),
        p.len() > 0,
    ensures
        accepts(p, s) <==> s == p,
{
    let none = Seq::<char>::empty();
    lemma_literal(p, none, s);
    assert(p + none =~= p);
    if s == p {
        assert(s.take(p.len() as int) =~= p);
        assert(s.skip(p.len() as int) =~= none);
    }
    if p.len() <= s.len() && s.take(p.len() as int) == p && s.skip(p.len() as int).len() == 0 {
        assert(s =~= p);
    }
}

/// A wildcard alone accepts every text.
pub proof fn law_wildcard_alone(s: Seq<char>)
    ensures
        accepts(seq![WILDCARD], s),
{
    let p = seq![WILDCARD];
    lemma_wildcard(p, s);
    assert(p.skip(1) =~= Seq::<char>::empty());
    assert(s.skip(s.len() as int) =~= Seq::<char>::empty());
    assert(glob(p.skip(1), s.skip(s.len() as int)));
}

/// A literal text before a wildcard is a prefix, and behind one a suffix.
pub proof fn law_wildcard_at_an_end(lit: Seq<char>, s: Seq<char>)
    requires
        is_literal(lit),
    ensures
        accepts(lit.push(WILDCARD), s) <==> {
            &&& lit.len() <= s.len()
            &&& s.take(lit.len() as int) == lit
        },
        accepts(seq![WILDCARD] + lit, s) <==> {
            &&& lit.len() <= s.len()
            &&& s.skip(s.len() - lit.len()) == lit
        },
{
    let star = seq![WILDCARD];
    let none = Seq::<char>::empty();
    assert(lit.push(WILDCARD) =~= lit + star);
    lemma_literal(lit, star, s);
    law_wildcard_alone(s.skip(lit.len() as int));
    let p = star + lit;
    assert(p[0] == WILDCARD);
    lemma_wildcard(p, s);
    assert(p.skip(1) =~= lit);
    assert(lit + none =~= lit);
    if glob(p, s) {
        let k = choose|k: int| 0 <= k <= s.len() && #[trigger] glob(p.skip(1), s.skip(k));
        lemma_literal(lit, none, s.skip(k));
        assert(s.skip(k).skip(lit.len() as int).len() == 0);
        assert(s.skip(k).take(lit.len() as int) =~= s.skip(k));
        assert(k == s.len() - lit.len());
    }
    if lit.len() <= s.len() && s.skip(s.len() - lit.len()) == lit {
        let t = s.skip(s.len() - lit.len());
        lemma_literal(lit, none, t);
        assert(t.take(lit.len() as int) =~= lit);
        assert(t.skip(lit.len() as int) =~= none);
        assert(glob(p.skip(1), s.skip(s.len() - lit.len())));
    }
}

/// The name of a severity in the audit log is read back as that severity, so that an
/// event passes a floor just when its severity is not below it.
pub proof fn law_named_severity_meets_the_floor(
    named: detectors::Severity,
    least: Severity,
    wanted: Seq<Pair>,
    pattern: Option<Seq<char>>,
    e: EnvelopeModel,
)
    requires
        event::text_member(e.event.members, "blocked_severity"@) == Some(named.tag()),
    ensures
        severity_named(named.tag()) is Some,
        severity_named(named.tag())->0.rank() == named.rank(),
        passes(Seq::empty(), Some(least), None, e) <==> named.rank() >= least.rank(),
        passes(wanted, Some(least), pattern, e) <==> named.rank() >= least.rank() && passes(
            wanted,
            None,
            pattern,
            e,
        ),
{
    reveal_strlit("low");
    reveal_strlit("medium");
    reveal_strlit("high");
    reveal_strlit("critical");
    assert("low"@.len() == 3 && "medium"@.len() == 6 && "high"@.len() == 4 && "critical"@.len()
        == 8);
}

/// A name that the audit log does not write is no severity.
pub proof fn law_unknown_name_is_no_severity(other: Seq<char>)
    requires
        forall|v: detectors::Severity| other != #[trigger] v.tag(),
    ensures
        severity_named(other) is None,
{
    assert(other != detectors::Severity::Low.tag());
    assert(other != detectors::Severity::Medium.tag());
    assert(other != detectors::Severity::High.tag());
    assert(other != detectors::Severity::Critical.tag());
}

/// The severities of a filter stand in the order of their names: low, medium, high,
/// critical.
pub proof fn law_severities_are_ordered()
    ensures
        severity_named("low"@) == Some(Severity::Low),
        severity_named("medium"@) == Some(Severity::Medium),
        severity_named("high"@) == Some(Severity::High),
        severity_named("critical"@) == Some(Severity::Critical),
        Severity::Low.rank() < Severity::Medium.rank() < Severity::High.rank()
            < Severity::Critical.rank(),
{
    reveal_strlit("low");
    reveal_strlit("medium");
    reveal_strlit("high");
    reveal_strlit("critical");
    assert("low"@.len() == 3 && "medium"@.len() == 6 && "high"@.len() == 4 && "critical"@.len()
        == 8);
}

/// A pattern in two parts accepts just the texts that fall into two parts, one for
/// each: so every character stands for itself and every wildcard for any text,
/// wherever in the pattern it stands.
pub proof fn law_pattern_parts_accept_text_parts(p: Seq<char>, q: Seq<char>, s: Seq<char>)
    ensures
        glob(p + q, s) <==> exists|k: int|
            0 <= k <= s.len() && #[trigger] glob(p, s.take(k)) && glob(q, s.skip(k)),
    decreases p.len() + s.len(),
{
    let whole = p + q;
    if p.len() == 0 {
        assert(whole =~= q);
        assert(s.take(0) =~= Seq::<char>::empty());
        assert(s.skip(0) =~= s);
        assert(glob(p, s.take(0)));
    } else {
        assert(whole[0] == p[0]);
        assert(whole.skip(1) =~= p.skip(1) + q);
        if p[0] == WILDCARD {
            law_pattern_parts_accept_text_parts(p.skip(1), q, s);
            if s.len() > 0 {
                law_pattern_parts_accept_text_parts(p, q, s.skip(1));
            }
            if glob(whole, s) {
                if glob(whole.skip(1), s) {
                    let k = choose|k: int|
                        0 <= k <= s.len() && #[trigger] glob(p.skip(1), s.take(k)) && glob(
                            q,
                            s.skip(k),
                        );
                    assert(glob(p, s.take(k)));
                } else {
                    let t = s.skip(1);
                    let k = choose|k: int|
                        0 <= k <= t.len() && #[trigger] glob(p, t.take(k)) && glob(q, t.skip(k));
                    assert(s.take(k + 1).skip(1) =~= t.take(k));
                    assert(s.skip(k + 1) =~= t.skip(k));
                    assert(glob(p, s.take(k + 1)));
                }
            }
            if exists|k: int|
                0 <= k <= s.len() && #[trigger] glob(p, s.take(k)) && glob(q, s.skip(k)) {
                let k = choose|k: int|
                    0 <= k <= s.len() && #[trigger] glob(p, s.take(k)) && glob(q, s.skip(k));
                if glob(p.skip(1), s.take(k)) {
                    assert(glob(whole.skip(1), s));
                } else {
                    let t = s.skip(1);
                    assert(s.take(k).skip(1) =~= t.take(k - 1));
                    assert(t.skip(k - 1) =~= s.skip(k));
                    assert(glob(p, t.take(k - 1)));
                    assert(glob(whole, t));
                }
            }
        } else if s.len() > 0 {
            let t = s.skip(1);
            law_pattern_parts_accept_text_parts(p.skip(1), q, t);
            if glob(whole, s) {
                let k = choose|k: int|
                    0 <= k <= t.len() && #[trigger] glob(p.skip(1), t.take(k)) && glob(
                        q,
                        t.skip(k),
                    );
                assert(s.take(k + 1).skip(1) =~= t.take(k));
                assert(s.skip(k + 1) =~= t.skip(k));
                assert(glob(p, s.take(k + 1)));
            }
            if exists|k: int|
                0 <= k <= s.len() && #[trigger] glob(p, s.take(k)) && glob(q, s.skip(k)) {
                let k = choose|k: int|
                    0 <= k <= s.len() && #[trigger] glob(p, s.take(k)) && glob(q, s.skip(k));
                assert(s.take(k).skip(1) =~= t.take(k - 1));
                assert(t.skip(k - 1) =~= s.skip(k));
                assert(glob(p.skip(1), t.take(k - 1)));
            }
        }
    }
}

/// An event passes a pattern just when the rule that blocked it, or some rule that
/// would have, wherever in the list it stands, is accepted.
pub proof fn law_any_named_rule_counts(
    pattern: Seq<char>,
    members: Seq<(Seq<char>, MemberView)>,
    items: Seq<Option<Seq<char>>>,
    i: int,
    rule: Seq<char>,
)
    requires
        event::member(members, "would_block_rules"@) == Some(MemberView::List(items)),
        0 <= i < items.len(),
        items[i] == Some(rule),
        accepts(pattern, rule),
    ensures
        names_rule(pattern, members),
{
    assert(accepts_item(pattern, items[i]));
}

/// The rule that blocked counts by itself; and where neither it nor a listed one is
/// accepted, the event does not pass.
pub proof fn law_blocked_rule_counts(pattern: Seq<char>, members: Seq<(Seq<char>, MemberView)>)
    ensures
        event::text_member(members, "blocked_rule"@) matches Some(rule) ==> accepts(pattern, rule)
            ==> names_rule(pattern, members),
        ({
            &&& event::text_member(members, "blocked_rule"@) matches Some(rule) ==> !accepts(
                pattern,
                rule,
            )
            &&& event::member(members, "would_block_rules"@) matches Some(
                MemberView::List(items),
            ) ==> forall|i: int|
                0 <= i < items.len() && (#[trigger] items[i]) is Some ==> !accepts(
                    pattern,
                    items[i]->0,
                )
        }) ==> !names_rule(pattern, members),
{
}

/// All the labels that a filter asks for must be there, each with its value, wherever each
/// stands in the list; where they are, labels keep nothing back.
pub proof fn law_all_wanted_labels_count(
    wanted: Seq<Pair>,
    least: Option<Severity>,
    pattern: Option<Seq<char>>,
    e: EnvelopeModel,
    i: int,
)
    ensures
        0 <= i < wanted.len() && labels::value_of(e.labels, wanted[i].0) != Some(wanted[i].1)
            ==> !passes(wanted, least, pattern, e),
        (forall|k: int|
            0 <= k < wanted.len() ==> labels::value_of(e.labels, (#[trigger] wanted[k]).0) == Some(
                wanted[k].1,
            )) ==> (passes(wanted, least, pattern, e) <==> passes(
            Seq::empty(),
            least,
            pattern,
            e,
        )),
{
}

/// A filter by rule passes just the events that name a rule it accepts.
pub proof fn law_rule_must_be_named(pattern: Seq<char>, e: EnvelopeModel)
    ensures
        passes(Seq::empty(), None, Some(pattern), e) <==> names_rule(pattern, e.event.members),
{
}

} // verus!
