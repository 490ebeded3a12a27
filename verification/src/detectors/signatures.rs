//! Literal signatures of attacks, found in a single pass over each field.
use aho_corasick::AhoCorasick;
use vstd::prelude::*;
use vstd::utf8::*;

use crate::detectors;
use crate::detectors::{Detector, Group, Severity, Verdict, VerdictView};
use crate::request;
use crate::request::{Request, RequestModel};
use crate::text::join3;

verus! {

// ---------------------------------------------------------------------------
// The table
// ---------------------------------------------------------------------------
/// A literal, the rule it stands for, and how serious a match is.
pub type Signature = (Seq<char>, Seq<char>, Severity);

/// The number of signatures.
pub const SIGNATURE_COUNT: usize = 23;

/// The signatures. Each literal is specific enough to stay clear of benign
/// traffic: shell commands carry the metacharacter before them.
pub open spec fn signatures() -> Seq<Signature> {
    seq![
        ("../"@, "path_traversal"@, Severity::High),
        ("..\\"@, "path_traversal"@, Severity::High),
        ("/etc/passwd"@, "lfi"@, Severity::Critical),
        ("/etc/shadow"@, "lfi"@, Severity::Critical),
        ("/proc/self/environ"@, "lfi"@, Severity::Critical),
        ("/web-inf/"@, "lfi"@, Severity::High),
        ("$("@, "rce_subshell"@, Severity::Critical),
        ("`"@, "rce_backtick"@, Severity::High),
        ("/bin/sh"@, "rce_shell"@, Severity::Critical),
        (";wget"@, "rce_cmd"@, Severity::Critical),
        (";curl"@, "rce_cmd"@, Severity::Critical),
        (";bash"@, "rce_cmd"@, Severity::Critical),
        (";nc "@, "rce_cmd"@, Severity::Critical),
        ("|bash"@, "rce_cmd"@, Severity::Critical),
        ("|sh "@, "rce_cmd"@, Severity::Critical),
        ("${jndi:"@, "jndi_lookup"@, Severity::Critical),
        ("php://"@, "php_wrapper"@, Severity::High),
        ("phar://"@, "php_wrapper"@, Severity::High),
        ("expect://"@, "php_wrapper"@, Severity::Critical),
        ("xp_cmdshell"@, "rce_sql"@, Severity::Critical),
        ("sqlmap"@, "scanner_ua"@, Severity::Medium),
        ("nikto"@, "scanner_ua"@, Severity::Medium),
        ("nuclei"@, "scanner_ua"@, Severity::Medium),
    ]
}

/// One row of the table.
pub fn signature(i: usize) -> (r: (&'static str, &'static str, Severity))
    requires
        i < SIGNATURE_COUNT,
    ensures
        (r.0@, r.1@, r.2) == signatures()[i as int],
{
    match i {
        0 => ("../", "path_traversal", Severity::High),
        1 => ("..\\", "path_traversal", Severity::High),
        2 => ("/etc/passwd", "lfi", Severity::Critical),
        3 => ("/etc/shadow", "lfi", Severity::Critical),
        4 => ("/proc/self/environ", "lfi", Severity::Critical),
        5 => ("/web-inf/", "lfi", Severity::High),
        6 => ("$(", "rce_subshell", Severity::Critical),
        7 => ("`", "rce_backtick", Severity::High),
        8 => ("/bin/sh", "rce_shell", Severity::Critical),
        9 => (";wget", "rce_cmd", Severity::Critical),
        10 => (";curl", "rce_cmd", Severity::Critical),
        11 => (";bash", "rce_cmd", Severity::Critical),
        12 => (";nc ", "rce_cmd", Severity::Critical),
        13 => ("|bash", "rce_cmd", Severity::Critical),
        14 => ("|sh ", "rce_cmd", Severity::Critical),
        15 => ("${jndi:", "jndi_lookup", Severity::Critical),
        16 => ("php://", "php_wrapper", Severity::High),
        17 => ("phar://", "php_wrapper", Severity::High),
        18 => ("expect://", "php_wrapper", Severity::Critical),
        19 => ("xp_cmdshell", "rce_sql", Severity::Critical),
        20 => ("sqlmap", "scanner_ua", Severity::Medium),
        21 => ("nikto", "scanner_ua", Severity::Medium),
        _ => ("nuclei", "scanner_ua", Severity::Medium),
    }
}

/// The bytes of the literals.
pub open spec fn literals() -> Seq<Seq<u8>> {
    signatures().map_values(|s: Signature| encode_utf8(s.0))
}

/// Every literal is a few ASCII characters.
proof fn lemma_literals()
    ensures
        signatures().len() == SIGNATURE_COUNT,
        forall|i: int|
            0 <= i < SIGNATURE_COUNT ==> 0 < (#[trigger] literals()[i]).len() <= 64,
{
    reveal_strlit("../");
    reveal_strlit("..\\");
    reveal_strlit("/etc/passwd");
    reveal_strlit("/etc/shadow");
    reveal_strlit("/proc/self/environ");
    reveal_strlit("/web-inf/");
    reveal_strlit("$(");
    reveal_strlit("`");
    reveal_strlit("/bin/sh");
    reveal_strlit(";wget");
    reveal_strlit(";curl");
    reveal_strlit(";bash");
    reveal_strlit(";nc ");
    reveal_strlit("|bash");
    reveal_strlit("|sh ");
    reveal_strlit("${jndi:");
    reveal_strlit("php://");
    reveal_strlit("phar://");
    reveal_strlit("expect://");
    reveal_strlit("xp_cmdshell");
    reveal_strlit("sqlmap");
    reveal_strlit("nikto");
    reveal_strlit("nuclei");
    assert forall|i: int| 0 <= i < SIGNATURE_COUNT implies 0 < (#[trigger] literals()[i]).len()
        <= 64 by {
        let s = signatures()[i].0;
        assert(is_ascii_chars(s));
        is_ascii_chars_encode_utf8(s);
    }
}

// ---------------------------------------------------------------------------
// The matcher
// ---------------------------------------------------------------------------
/// An Aho-Corasick automaton.
#[verifier::external_type_specification]
#[verifier::external_body]
pub struct ExAhoCorasick(AhoCorasick);

/// The patterns an automaton was built with.
pub uninterp spec fn matcher_patterns(m: AhoCorasick) -> Seq<Seq<u8>>;

/// Whether an automaton was built to report a match as soon as it is seen, and
/// without respect to the case of ASCII letters.
pub uninterp spec fn matcher_folds_case(m: AhoCorasick) -> bool;

/// A byte with ASCII letters in lower case.
pub open spec fn fold(b: u8) -> u8 {
    if 65 <= b <= 90 {
        (b + 32) as u8
    } else {
        b
    }
}

/// A match: the pattern's number, where it starts, and where it ends.
pub type Found = (int, int, int);

/// The match is an occurrence of its pattern, the case of letters aside.
pub open spec fn occurs(patterns: Seq<Seq<u8>>, hay: Seq<u8>, m: Found) -> bool {
    let (p, start, end) = m;
    &&& 0 <= p < patterns.len()
    &&& 0 <= start <= end <= hay.len()
    &&& end - start == patterns[p].len()
    &&& forall|k: int|
        0 <= k < patterns[p].len() ==> fold(hay[start + k]) == fold(#[trigger] patterns[p][k])
}

/// The matches from `start` to `end` of the patterns with a number below `n`.
pub open spec fn matches_of(
    patterns: Seq<Seq<u8>>,
    hay: Seq<u8>,
    start: int,
    end: int,
    n: int,
) -> Seq<Found>
    decreases n,
{
    if n <= 0 {
        Seq::empty()
    } else {
        let before = matches_of(patterns, hay, start, end, n - 1);
        if occurs(patterns, hay, (n - 1, start, end)) {
            before.push((n - 1, start, end))
        } else {
            before
        }
    }
}

/// The matches that end at `end` and start before `from`.
pub open spec fn matches_to(patterns: Seq<Seq<u8>>, hay: Seq<u8>, from: int, end: int) -> Seq<Found>
    decreases from,
{
    if from <= 0 {
        Seq::empty()
    } else {
        matches_to(patterns, hay, from - 1, end) + matches_of(
            patterns,
            hay,
            from - 1,
            end,
            patterns.len() as int,
        )
    }
}

/// The matches that end at `end` or before it: in the order of their ends, at
/// one end the longest first, and equal texts in the order of their numbers.
/// They may overlap.
pub open spec fn matches_by(patterns: Seq<Seq<u8>>, hay: Seq<u8>, end: int) -> Seq<Found>
    decreases end,
{
    if end <= 0 {
        Seq::empty()
    } else {
        matches_by(patterns, hay, end - 1) + matches_to(patterns, hay, end, end)
    }
}

/// The matches as numbers.
pub open spec fn founds(v: Seq<(usize, usize, usize)>) -> Seq<Found> {
    v.map_values(|m: (usize, usize, usize)| (m.0 as int, m.1 as int, m.2 as int))
}

/// The bytes of some literal texts.
pub open spec fn text_literals(v: Seq<&str>) -> Seq<Seq<u8>> {
    v.map_values(|s: &str| encode_utf8(s@))
}

/// `aho_corasick::AhoCorasick::builder`, with ASCII case insensitivity and the
/// default (standard) match semantics, and `build`. A few short patterns are
/// far below every limit at which building fails.
#[verifier::external_body]
fn build_matcher(patterns: &Vec<&'static str>) -> (r: AhoCorasick)
    requires
        patterns@.len() <= 256,
        forall|i: int|
            0 <= i < patterns@.len() ==> (#[trigger] text_literals(patterns@)[i]).len() <= 64,
    ensures
        matcher_patterns(r) == text_literals(patterns@),
        matcher_folds_case(r),
{
    AhoCorasick::builder()
        .ascii_case_insensitive(true)
        .build(patterns)
        .expect("a small pattern set builds")
}

/// `aho_corasick::AhoCorasick::find_overlapping_iter` with standard semantics,
/// collected: every occurrence of every pattern is reported, as soon as its
/// last byte is seen, whether or not it overlaps another; of several that end
/// at the same byte the longest comes first. With any other semantics the call
/// would panic.
#[verifier::external_body]
fn find_matches(m: &AhoCorasick, hay: &[u8]) -> (r: Vec<(usize, usize, usize)>)
    requires
        matcher_folds_case(*m),
        forall|i: int|
            0 <= i < matcher_patterns(*m).len() ==> (#[trigger] matcher_patterns(*m)[i]).len() > 0,
    ensures
        founds(r@) == matches_by(matcher_patterns(*m), hay@, hay@.len() as int),
{
    m.find_overlapping_iter(hay).map(|m| (m.pattern().as_usize(), m.start(), m.end())).collect()
}

proof fn lemma_matches_of(patterns: Seq<Seq<u8>>, hay: Seq<u8>, start: int, end: int, n: int)
    requires
        n <= patterns.len(),
    ensures
        forall|m: Found|
            #![trigger matches_of(patterns, hay, start, end, n).contains(m)]
            #![trigger occurs(patterns, hay, m)]
            matches_of(patterns, hay, start, end, n).contains(m) <==> (occurs(patterns, hay, m)
                && m.0 < n && m.1 == start && m.2 == end),
    decreases n,
{
    if n > 0 {
        lemma_matches_of(patterns, hay, start, end, n - 1);
        let before = matches_of(patterns, hay, start, end, n - 1);
        let all = matches_of(patterns, hay, start, end, n);
        let last = (n - 1, start, end);
        assert forall|m: Found|
            #![trigger all.contains(m)]
            #![trigger occurs(patterns, hay, m)]
            all.contains(m) <==> (occurs(patterns, hay, m) && m.0 < n && m.1 == start && m.2
                == end) by {
            assert(before.contains(m) <==> (occurs(patterns, hay, m) && m.0 < n - 1 && m.1 == start
                && m.2 == end));
            if occurs(patterns, hay, last) {
                vstd::seq_lib::lemma_seq_contains_after_push(before, last, m);
            }
        }
    }
}

proof fn lemma_matches_to(patterns: Seq<Seq<u8>>, hay: Seq<u8>, from: int, end: int)
    ensures
        forall|m: Found|
            #![trigger matches_to(patterns, hay, from, end).contains(m)]
            #![trigger occurs(patterns, hay, m)]
            matches_to(patterns, hay, from, end).contains(m) <==> (occurs(patterns, hay, m) && m.1
                < from && m.2 == end),
    decreases from,
{
    if from > 0 {
        let n = patterns.len() as int;
        lemma_matches_to(patterns, hay, from - 1, end);
        lemma_matches_of(patterns, hay, from - 1, end, n);
        let a = matches_to(patterns, hay, from - 1, end);
        let b = matches_of(patterns, hay, from - 1, end, n);
        assert forall|m: Found|
            #![trigger matches_to(patterns, hay, from, end).contains(m)]
            #![trigger occurs(patterns, hay, m)]
            matches_to(patterns, hay, from, end).contains(m) <==> (occurs(patterns, hay, m) && m.1
                < from && m.2 == end) by {
            assert(a.contains(m) <==> (occurs(patterns, hay, m) && m.1 < from - 1 && m.2 == end));
            assert(b.contains(m) <==> (occurs(patterns, hay, m) && m.0 < n && m.1 == from - 1
                && m.2 == end));
            vstd::seq_lib::lemma_seq_concat_contains_all_elements(a, b, m);
        }
    }
}

/// With no pattern empty, the matches by the end of a haystack are its
/// occurrences.
proof fn lemma_matches_by(patterns: Seq<Seq<u8>>, hay: Seq<u8>, end: int)
    requires
        forall|i: int| 0 <= i < patterns.len() ==> (#[trigger] patterns[i]).len() > 0,
    ensures
        forall|m: Found|
            #![trigger matches_by(patterns, hay, end).contains(m)]
            #![trigger occurs(patterns, hay, m)]
            matches_by(patterns, hay, end).contains(m) <==> (occurs(patterns, hay, m) && m.2
                <= end),
    decreases end,
{
    if end > 0 {
        lemma_matches_by(patterns, hay, end - 1);
        lemma_matches_to(patterns, hay, end, end);
        let a = matches_by(patterns, hay, end - 1);
        let b = matches_to(patterns, hay, end, end);
        assert forall|m: Found|
            #![trigger matches_by(patterns, hay, end).contains(m)]
            #![trigger occurs(patterns, hay, m)]
            matches_by(patterns, hay, end).contains(m) <==> (occurs(patterns, hay, m) && m.2
                <= end) by {
            assert(a.contains(m) <==> (occurs(patterns, hay, m) && m.2 <= end - 1));
            assert(b.contains(m) <==> (occurs(patterns, hay, m) && m.1 < end && m.2 == end));
            vstd::seq_lib::lemma_seq_concat_contains_all_elements(a, b, m);
            if occurs(patterns, hay, m) {
                assert(patterns[m.0].len() > 0);
            }
        }
    } else {
        assert forall|m: Found| #[trigger] occurs(patterns, hay, m) implies m.2 > end by {
            assert(patterns[m.0].len() > 0);
        }
    }
}

// ---------------------------------------------------------------------------
// The verdicts
// ---------------------------------------------------------------------------
/// The matches of the signatures in one field.
pub open spec fn matches_in(hay: Seq<u8>) -> Seq<Found> {
    matches_by(literals(), hay, hay.len() as int)
}

/// The numbers of the signatures matched in one field.
pub open spec fn hits_in(hay: Seq<u8>) -> Seq<int> {
    matches_in(hay).map_values(|m: Found| m.0)
}

/// The numbers of the signatures matched in all fields, one after the other.
pub open spec fn hits(fields: Seq<Seq<u8>>) -> Seq<int>
    decreases fields.len(),
{
    if fields.len() == 0 {
        Seq::empty()
    } else {
        hits(fields.drop_last()) + hits_in(fields.last())
    }
}

/// The numbers without repetition, in the order of their first occurrence.
pub open spec fn distinct(ids: Seq<int>) -> Seq<int>
    decreases ids.len(),
{
    if ids.len() == 0 {
        Seq::empty()
    } else {
        let before = distinct(ids.drop_last());
        if before.contains(ids.last()) {
            before
        } else {
            before.push(ids.last())
        }
    }
}

/// The verdict for a signature.
pub open spec fn signature_verdict(i: int) -> VerdictView {
    VerdictView {
        group: Group::Signatures,
        rule: signatures()[i].1,
        severity: signatures()[i].2,
        detail: "matched signature `"@ + signatures()[i].0 + "`"@,
    }
}

/// The verdicts for some signatures.
pub open spec fn signature_verdicts(ids: Seq<int>) -> Seq<VerdictView> {
    ids.map_values(|i: int| signature_verdict(i))
}

/// The verdicts on a request: one for each signature that is matched.
pub open spec fn verdicts_on(r: RequestModel) -> Seq<VerdictView> {
    signature_verdicts(distinct(hits(request::fields(r))))
}

/// Finds all signatures in a single pass over each field.
pub struct SignatureDetector {
    /// The automaton for the signatures.
    pub matcher: AhoCorasick,
}

impl SignatureDetector {
    /// A detector for the signatures of the table.
    pub fn new() -> (r: SignatureDetector)
        ensures
            r.valid(),
    {
        proof {
            lemma_literals();
        }
        let mut patterns: Vec<&'static str> = Vec::new();
        let mut i: usize = 0;
        while i < SIGNATURE_COUNT
            invariant
                i <= SIGNATURE_COUNT,
                signatures().len() == SIGNATURE_COUNT,
                patterns@.len() == i,
                forall|k: int| 0 <= k < i ==> (#[trigger] patterns@[k])@ == signatures()[k].0,
            decreases SIGNATURE_COUNT - i,
        {
            let (literal, _, _) = signature(i);
            patterns.push(literal);
            i = i + 1;
        }
        assert(text_literals(patterns@) =~= literals());
        SignatureDetector { matcher: build_matcher(&patterns) }
    }
}

impl Default for SignatureDetector {
    fn default() -> (r: SignatureDetector)
        ensures
            r.valid(),
    {
        SignatureDetector::new()
    }
}

impl Detector for SignatureDetector {
    open spec fn group_spec(&self) -> Group {
        Group::Signatures
    }

    open spec fn valid(&self) -> bool {
        matcher_patterns(self.matcher) == literals() && matcher_folds_case(self.matcher)
    }

    open spec fn may_react(
        &self,
        req: RequestModel,
        verdicts: Seq<VerdictView>,
        after: &Self,
    ) -> bool {
        verdicts == verdicts_on(req) && *after == *self
    }

    fn group(&self) -> (g: Group) {
        Group::Signatures
    }

    fn inspect(&mut self, req: &Request) -> (r: Vec<Verdict>) {
        proof {
            lemma_literals();
        }
        let fields = req.inspectable_fields();
        let ghost all = request::fields(req@);
        let mut matched: Vec<bool> = Vec::new();
        let mut k: usize = 0;
        while k < SIGNATURE_COUNT
            invariant
                k <= SIGNATURE_COUNT,
                matched@.len() == k,
                forall|j: int| 0 <= j < k ==> !matched@[j],
            decreases SIGNATURE_COUNT - k,
        {
            matched.push(false);
            k = k + 1;
        }
        let mut out: Vec<Verdict> = Vec::new();
        let ghost mut ids: Seq<int> = Seq::empty();
        assert(detectors::verdict_views(out@) =~= signature_verdicts(distinct(ids)));
        let mut i: usize = 0;
        assert(ids =~= hits(all.take(0)));
        while i < fields.len()
            invariant
                i <= fields@.len(),
                all == request::slices(fields@),
                matcher_patterns(self.matcher) == literals(),
                matcher_folds_case(self.matcher),
                *self == *old(self),
                literals().len() == SIGNATURE_COUNT,
                signatures().len() == SIGNATURE_COUNT,
                forall|j: int| 0 <= j < SIGNATURE_COUNT ==> 0 < (#[trigger] literals()[j]).len(),
                matched@.len() == SIGNATURE_COUNT,
                ids == hits(all.take(i as int)),
                detectors::verdict_views(out@) == signature_verdicts(distinct(ids)),
                forall|j: int|
                    0 <= j < SIGNATURE_COUNT ==> (#[trigger] matched@[j] <==> distinct(
                        ids,
                    ).contains(j)),
            decreases fields@.len() - i,
        {
            let found = find_matches(&self.matcher, fields[i]);
            let ghost ms = founds(found@);
            let ghost before = ids;
            proof {
                let hay = fields@[i as int]@;
                assert(all.take(i + 1).last() == hay);
                assert(all.take(i + 1).drop_last() == all.take(i as int));
                lemma_matches_in(hay);
                assert forall|q: int| 0 <= q < ms.len() implies 0 <= (#[trigger] ms[q]).0
                    < SIGNATURE_COUNT by {
                    assert(matches_in(hay).contains(ms[q]));
                }
            }
            let ghost new_ids = hits_in(fields@[i as int]@);
            let mut j: usize = 0;
            assert(before + new_ids.take(0) =~= ids);
            while j < found.len()
                invariant
                    j <= found@.len(),
                    ms == founds(found@),
                    new_ids == ms.map_values(|m: Found| m.0),
                    forall|q: int|
                        0 <= q < ms.len() ==> 0 <= (#[trigger] ms[q]).0 < SIGNATURE_COUNT,
                    signatures().len() == SIGNATURE_COUNT,
                    matched@.len() == SIGNATURE_COUNT,
                    ids == before + new_ids.take(j as int),
                    detectors::verdict_views(out@) == signature_verdicts(distinct(ids)),
                    forall|q: int|
                        0 <= q < SIGNATURE_COUNT ==> (#[trigger] matched@[q] <==> distinct(
                            ids,
                        ).contains(q)),
                decreases found@.len() - j,
            {
                let pattern = found[j].0;
                assert(ms[j as int].0 == pattern);
                let ghost old_ids = ids;
                let ghost old_distinct = distinct(ids);
                proof {
                    assert(new_ids.take(j + 1) =~= new_ids.take(j as int).push(pattern as int));
                    ids = before + new_ids.take(j + 1);
                    assert(ids =~= old_ids.push(pattern as int));
                    assert(ids.drop_last() =~= old_ids);
                }
                if !matched[pattern] {
                    let ghost old_matched = matched@;
                    matched.set(pattern, true);
                    let (literal, rule, severity) = signature(pattern);
                    let ghost views = detectors::verdict_views(out@);
                    let detail = join3("matched signature `", literal, "`");
                    let v = Verdict { group: Group::Signatures, rule, severity, detail };
                    let ghost view = v@;
                    out.push(v);
                    proof {
                        assert(detectors::verdict_views(out@) =~= views.push(view));
                        assert(view == signature_verdict(pattern as int));
                        assert(distinct(ids) == old_distinct.push(pattern as int));
                        assert(signature_verdicts(distinct(ids)) =~= signature_verdicts(
                            old_distinct,
                        ).push(view));
                        assert forall|q: int| 0 <= q < SIGNATURE_COUNT implies (
                        #[trigger] matched@[q] <==> distinct(ids).contains(q)) by {
                            assert(distinct(ids)[old_distinct.len() as int] == pattern);
                            if old_distinct.contains(q) {
                                let z = old_distinct.index_of(q);
                                assert(distinct(ids)[z] == q);
                            }
                            if distinct(ids).contains(q) && q != pattern {
                                let z = distinct(ids).index_of(q);
                                assert(old_distinct[z] == q);
                            }
                        }
                    }
                }
                j = j + 1;
            }
            assert(new_ids.take(new_ids.len() as int) =~= new_ids);
            i = i + 1;
        }
        assert(all.take(all.len() as int) == all);
        out
    }
}

/// The matches in a field are the occurrences of the signatures in it.
proof fn lemma_matches_in(hay: Seq<u8>)
    ensures
        forall|m: Found|
            #![trigger matches_in(hay).contains(m)]
            #![trigger occurs(literals(), hay, m)]
            matches_in(hay).contains(m) <==> occurs(literals(), hay, m),
{
    lemma_literals();
    lemma_matches_by(literals(), hay, hay.len() as int);
}

// ---------------------------------------------------------------------------
// Laws
// ---------------------------------------------------------------------------
/// Signature `i` occurs in one of the fields.
pub open spec fn occurs_in_some(fields: Seq<Seq<u8>>, i: int) -> bool {
    exists|f: int, m: Found|
        0 <= f < fields.len() && m.0 == i && #[trigger] occurs(literals(), fields[f], m)
}

proof fn lemma_hits_in(hay: Seq<u8>, i: int)
    ensures
        hits_in(hay).contains(i) <==> exists|m: Found|
            m.0 == i && #[trigger] occurs(literals(), hay, m),
{
    lemma_matches_in(hay);
    let ms = matches_in(hay);
    if hits_in(hay).contains(i) {
        let q = hits_in(hay).index_of(i);
        assert(ms.contains(ms[q]));
        assert(occurs(literals(), hay, ms[q]));
    }
    if exists|m: Found| m.0 == i && #[trigger] occurs(literals(), hay, m) {
        let m = choose|m: Found| m.0 == i && #[trigger] occurs(literals(), hay, m);
        assert(ms.contains(m));
        assert(hits_in(hay)[ms.index_of(m)] == i);
    }
}

proof fn lemma_hits(fields: Seq<Seq<u8>>, i: int)
    ensures
        hits(fields).contains(i) <==> occurs_in_some(fields, i),
    decreases fields.len(),
{
    if fields.len() > 0 {
        let front = fields.drop_last();
        let hay = fields.last();
        lemma_hits(front, i);
        lemma_hits_in(hay, i);
        vstd::seq_lib::lemma_seq_concat_contains_all_elements(hits(front), hits_in(hay), i);
        if occurs_in_some(front, i) {
            let (f, m) = choose|f: int, m: Found|
                0 <= f < front.len() && m.0 == i && #[trigger] occurs(literals(), front[f], m);
            assert(occurs(literals(), fields[f], m));
        }
        if hits_in(hay).contains(i) {
            let m = choose|m: Found| m.0 == i && #[trigger] occurs(literals(), hay, m);
            assert(occurs(literals(), fields[fields.len() - 1], m));
        }
        if occurs_in_some(fields, i) {
            let (f, m) = choose|f: int, m: Found|
                0 <= f < fields.len() && m.0 == i && #[trigger] occurs(literals(), fields[f], m);
            if f < front.len() {
                assert(occurs(literals(), front[f], m));
            } else {
                assert(occurs(literals(), hay, m));
            }
        }
    }
}

/// The hits are numbers of signatures, and the verdicts report each once.
proof fn lemma_reported(fields: Seq<Seq<u8>>)
    ensures
        distinct(hits(fields)).no_duplicates(),
        forall|x: int| #[trigger] distinct(hits(fields)).contains(x) <==> hits(fields).contains(x),
        forall|x: int| #[trigger]
            distinct(hits(fields)).contains(x) ==> 0 <= x < SIGNATURE_COUNT,
{
    let ids = hits(fields);
    lemma_literals();
    assert forall|q: int| 0 <= q < ids.len() implies 0 <= #[trigger] ids[q] < SIGNATURE_COUNT by {
        lemma_hits(fields, ids[q]);
        assert(ids.contains(ids[q]));
    }
    lemma_distinct(ids, SIGNATURE_COUNT as int);
}

/// However often a signature occurs, it is reported at most once, so that the
/// verdicts on a request are bounded by the table.
pub proof fn law_each_signature_reported_once(r: RequestModel)
    ensures
        distinct(hits(request::fields(r))).no_duplicates(),
        verdicts_on(r).len() <= SIGNATURE_COUNT,
{
    lemma_reported(request::fields(r));
    let d = distinct(hits(request::fields(r)));
    d.unique_seq_to_set();
    let range = vstd::set_lib::set_int_range(0, SIGNATURE_COUNT as int);
    vstd::set_lib::lemma_int_range(0, SIGNATURE_COUNT as int);
    assert(d.to_set().subset_of(range)) by {
        assert forall|x: int| d.to_set().contains(x) implies range.contains(x) by {
            assert(d.contains(x));
        }
    }
    vstd::set_lib::lemma_len_subset(d.to_set(), range);
}

/// A signature is reported just when it occurs in a field of the request,
/// whatever else occurs there and however the occurrences overlap.
pub proof fn law_reported_just_when_it_occurs(r: RequestModel, i: int)
    ensures
        distinct(hits(request::fields(r))).contains(i) <==> occurs_in_some(request::fields(r), i),
        occurs_in_some(request::fields(r), i) ==> verdicts_on(r).contains(signature_verdict(i)),
{
    let fields = request::fields(r);
    lemma_reported(fields);
    lemma_hits(fields, i);
    let d = distinct(hits(fields));
    assert(d.contains(i) <==> hits(fields).contains(i));
    if d.contains(i) {
        assert(verdicts_on(r)[d.index_of(i)] == signature_verdict(i));
    }
}

proof fn lemma_distinct(ids: Seq<int>, n: int)
    requires
        forall|q: int| 0 <= q < ids.len() ==> 0 <= #[trigger] ids[q] < n,
    ensures
        distinct(ids).no_duplicates(),
        forall|x: int| #[trigger] distinct(ids).contains(x) <==> ids.contains(x),
        forall|x: int| #[trigger] distinct(ids).contains(x) ==> 0 <= x < n,
    decreases ids.len(),
{
    if ids.len() > 0 {
        let front = ids.drop_last();
        assert forall|q: int| 0 <= q < front.len() implies 0 <= #[trigger] front[q] < n by {
            assert(ids[q] == front[q]);
        }
        lemma_distinct(front, n);
        let before = distinct(front);
        let last = ids.last();
        assert(ids =~= front.push(last));
        assert(0 <= ids[ids.len() - 1] < n);
        assert forall|x: int| #[trigger] distinct(ids).contains(x) <==> ids.contains(x) by {
            assert(before.contains(x) <==> front.contains(x));
            if front.contains(x) {
                assert(ids[front.index_of(x)] == x);
                if !before.contains(last) {
                    assert(distinct(ids)[before.index_of(x)] == x);
                }
            }
            if x == last {
                assert(ids[ids.len() - 1] == x);
                if !before.contains(last) {
                    assert(distinct(ids)[before.len() as int] == x);
                }
            }
            if ids.contains(x) {
                let z = ids.index_of(x);
                if z < front.len() {
                    assert(front[z] == x);
                }
            }
            if distinct(ids).contains(x) {
                let z = distinct(ids).index_of(x);
                if z < before.len() {
                    assert(before[z] == x);
                }
            }
        }
        assert forall|x: int| #[trigger] distinct(ids).contains(x) implies 0 <= x < n by {
            assert(ids.contains(x));
            let z = ids.index_of(x);
            assert(0 <= ids[z] < n);
        }
    }
}

/// A literal stands in `hay` at `at`, each of its small letters either small or capital.
pub open spec fn spelled_at(hay: Seq<u8>, at: int, literal: Seq<char>) -> bool {
    let bytes = encode_utf8(literal);
    &&& 0 <= at
    &&& at + bytes.len() <= hay.len()
    &&& forall|k: int|
        0 <= k < bytes.len() ==> {
            ||| hay[at + k] == #[trigger] bytes[k]
            ||| 97 <= bytes[k] <= 122 && hay[at + k] + 32 == bytes[k]
        }
}

/// The inspection of a request names a rule, with a severity, for a literal.
pub open spec fn names(r: RequestModel, rule: Seq<char>, severity: Severity, literal: Seq<char>) -> bool {
    exists|i: int|
        0 <= i < verdicts_on(r).len() && (#[trigger] verdicts_on(r)[i]) == (VerdictView {
            group: Group::Signatures,
            rule,
            severity,
            detail: "matched signature `"@ + literal + "`"@,
        })
}

proof fn lemma_spelled_is_reported(r: RequestModel, f: int, at: int, i: int)
    requires
        0 <= f < request::fields(r).len(),
        0 <= i < SIGNATURE_COUNT,
        spelled_at(request::fields(r)[f], at, signatures()[i].0),
    ensures
        names(r, signatures()[i].1, signatures()[i].2, signatures()[i].0),
{
    lemma_literals();
    let fields = request::fields(r);
    let bytes = encode_utf8(signatures()[i].0);
    assert(literals()[i] == bytes);
    let m: Found = (i, at, at + bytes.len());
    assert(occurs(literals(), fields[f], m)) by {
        assert forall|k: int| 0 <= k < literals()[i].len() implies fold(fields[f][at + k]) == fold(
            #[trigger] literals()[i][k],
        ) by {
            assert(bytes[k] == literals()[i][k]);
        }
    }
    assert(occurs_in_some(fields, i));
    law_reported_just_when_it_occurs(r, i);
    let z = verdicts_on(r).index_of(signature_verdict(i));
    assert(verdicts_on(r)[z] == signature_verdict(i));
}

/// Two bytes count as the same just when they are, or when one is an ASCII capital and the
/// other the small letter of it.
pub proof fn law_letters_match_in_either_case(a: u8, b: u8)
    ensures
        fold(a) == fold(b) <==> {
            ||| a == b
            ||| 65 <= a <= 90 && b == a + 32
            ||| 65 <= b <= 90 && a == b + 32
        },
{
}

/// Every signature verdict stands for a signature that occurs in some field.
pub proof fn law_only_what_occurs_is_reported(r: RequestModel, k: int)
    requires
        0 <= k < verdicts_on(r).len(),
    ensures
        exists|i: int|
            0 <= i < SIGNATURE_COUNT && #[trigger] occurs_in_some(request::fields(r), i)
                && verdicts_on(r)[k] == signature_verdict(i),
{
    let fields = request::fields(r);
    let d = distinct(hits(fields));
    lemma_reported(fields);
    let i = d[k];
    assert(d.contains(i));
    law_reported_just_when_it_occurs(r, i);
    assert(verdicts_on(r)[k] == signature_verdict(i));
}

/// A path that climbs, or that names a file nobody should ask for, is reported wherever it
/// stands in a field.
pub proof fn law_file_access_is_reported(r: RequestModel, f: int, at: int)
    requires
        0 <= f < request::fields(r).len(),
    ensures
        spelled_at(request::fields(r)[f], at, "../"@) ==> names(
            r,
            "path_traversal"@,
            Severity::High,
            "../"@,
        ),
        spelled_at(request::fields(r)[f], at, "..\\"@) ==> names(
            r,
            "path_traversal"@,
            Severity::High,
            "..\\"@,
        ),
        spelled_at(request::fields(r)[f], at, "/etc/passwd"@) ==> names(
            r,
            "lfi"@,
            Severity::Critical,
            "/etc/passwd"@,
        ),
        spelled_at(request::fields(r)[f], at, "/etc/shadow"@) ==> names(
            r,
            "lfi"@,
            Severity::Critical,
            "/etc/shadow"@,
        ),
        spelled_at(request::fields(r)[f], at, "/proc/self/environ"@) ==> names(
            r,
            "lfi"@,
            Severity::Critical,
            "/proc/self/environ"@,
        ),
        spelled_at(request::fields(r)[f], at, "/web-inf/"@) ==> names(
            r,
            "lfi"@,
            Severity::High,
            "/web-inf/"@,
        ),
{
    let hay = request::fields(r)[f];
    if spelled_at(hay, at, "../"@) {
        assert(signatures()[0].0 == "../"@);
        lemma_spelled_is_reported(r, f, at, 0);
    }
    if spelled_at(hay, at, "..\\"@) {
        assert(signatures()[1].0 == "..\\"@);
        lemma_spelled_is_reported(r, f, at, 1);
    }
    if spelled_at(hay, at, "/etc/passwd"@) {
        assert(signatures()[2].0 == "/etc/passwd"@);
        lemma_spelled_is_reported(r, f, at, 2);
    }
    if spelled_at(hay, at, "/etc/shadow"@) {
        assert(signatures()[3].0 == "/etc/shadow"@);
        lemma_spelled_is_reported(r, f, at, 3);
    }
    if spelled_at(hay, at, "/proc/self/environ"@) {
        assert(signatures()[4].0 == "/proc/self/environ"@);
        lemma_spelled_is_reported(r, f, at, 4);
    }
    if spelled_at(hay, at, "/web-inf/"@) {
        assert(signatures()[5].0 == "/web-inf/"@);
        lemma_spelled_is_reported(r, f, at, 5);
    }
}

/// A shell, or a command handed to one, is reported wherever it stands in a field.
pub proof fn law_commands_are_reported(r: RequestModel, f: int, at: int)
    requires
        0 <= f < request::fields(r).len(),
    ensures
        spelled_at(request::fields(r)[f], at, "$("@) ==> names(
            r,
            "rce_subshell"@,
            Severity::Critical,
            "$("@,
        ),
        spelled_at(request::fields(r)[f], at, "`"@) ==> names(
            r,
            "rce_backtick"@,
            Severity::High,
            "`"@,
        ),
        spelled_at(request::fields(r)[f], at, "/bin/sh"@) ==> names(
            r,
            "rce_shell"@,
            Severity::Critical,
            "/bin/sh"@,
        ),
        spelled_at(request::fields(r)[f], at, ";wget"@) ==> names(
            r,
            "rce_cmd"@,
            Severity::Critical,
            ";wget"@,
        ),
        spelled_at(request::fields(r)[f], at, ";curl"@) ==> names(
            r,
            "rce_cmd"@,
            Severity::Critical,
            ";curl"@,
        ),
        spelled_at(request::fields(r)[f], at, ";bash"@) ==> names(
            r,
            "rce_cmd"@,
            Severity::Critical,
            ";bash"@,
        ),
        spelled_at(request::fields(r)[f], at, ";nc "@) ==> names(
            r,
            "rce_cmd"@,
            Severity::Critical,
            ";nc "@,
        ),
        spelled_at(request::fields(r)[f], at, "|bash"@) ==> names(
            r,
            "rce_cmd"@,
            Severity::Critical,
            "|bash"@,
        ),
        spelled_at(request::fields(r)[f], at, "|sh "@) ==> names(
            r,
            "rce_cmd"@,
            Severity::Critical,
            "|sh "@,
        ),
{
    let hay = request::fields(r)[f];
    if spelled_at(hay, at, "$("@) {
        assert(signatures()[6].0 == "$("@);
        lemma_spelled_is_reported(r, f, at, 6);
    }
    if spelled_at(hay, at, "`"@) {
        assert(signatures()[7].0 == "`"@);
        lemma_spelled_is_reported(r, f, at, 7);
    }
    if spelled_at(hay, at, "/bin/sh"@) {
        assert(signatures()[8].0 == "/bin/sh"@);
        lemma_spelled_is_reported(r, f, at, 8);
    }
    if spelled_at(hay, at, ";wget"@) {
        assert(signatures()[9].0 == ";wget"@);
        lemma_spelled_is_reported(r, f, at, 9);
    }
    if spelled_at(hay, at, ";curl"@) {
        assert(signatures()[10].0 == ";curl"@);
        lemma_spelled_is_reported(r, f, at, 10);
    }
    if spelled_at(hay, at, ";bash"@) {
        assert(signatures()[11].0 == ";bash"@);
        lemma_spelled_is_reported(r, f, at, 11);
    }
    if spelled_at(hay, at, ";nc "@) {
        assert(signatures()[12].0 == ";nc "@);
        lemma_spelled_is_reported(r, f, at, 12);
    }
    if spelled_at(hay, at, "|bash"@) {
        assert(signatures()[13].0 == "|bash"@);
        lemma_spelled_is_reported(r, f, at, 13);
    }
    if spelled_at(hay, at, "|sh "@) {
        assert(signatures()[14].0 == "|sh "@);
        lemma_spelled_is_reported(r, f, at, 14);
    }
}

/// A lookup, a stream wrapper, a database command and the name of a scanner are reported
/// wherever they stand in a field.
pub proof fn law_lookups_and_scanners_are_reported(r: RequestModel, f: int, at: int)
    requires
        0 <= f < request::fields(r).len(),
    ensures
        spelled_at(request::fields(r)[f], at, "${jndi:"@) ==> names(
            r,
            "jndi_lookup"@,
            Severity::Critical,
            "${jndi:"@,
        ),
        spelled_at(request::fields(r)[f], at, "php://"@) ==> names(
            r,
            "php_wrapper"@,
            Severity::High,
            "php://"@,
        ),
        spelled_at(request::fields(r)[f], at, "phar://"@) ==> names(
            r,
            "php_wrapper"@,
            Severity::High,
            "phar://"@,
        ),
        spelled_at(request::fields(r)[f], at, "expect://"@) ==> names(
            r,
            "php_wrapper"@,
            Severity::Critical,
            "expect://"@,
        ),
        spelled_at(request::fields(r)[f], at, "xp_cmdshell"@) ==> names(
            r,
            "rce_sql"@,
            Severity::Critical,
            "xp_cmdshell"@,
        ),
        spelled_at(request::fields(r)[f], at, "sqlmap"@) ==> names(
            r,
            "scanner_ua"@,
            Severity::Medium,
            "sqlmap"@,
        ),
        spelled_at(request::fields(r)[f], at, "nikto"@) ==> names(
            r,
            "scanner_ua"@,
            Severity::Medium,
            "nikto"@,
        ),
        spelled_at(request::fields(r)[f], at, "nuclei"@) ==> names(
            r,
            "scanner_ua"@,
            Severity::Medium,
            "nuclei"@,
        ),
{
    let hay = request::fields(r)[f];
    if spelled_at(hay, at, "${jndi:"@) {
        assert(signatures()[15].0 == "${jndi:"@);
        lemma_spelled_is_reported(r, f, at, 15);
    }
    if spelled_at(hay, at, "php://"@) {
        assert(signatures()[16].0 == "php://"@);
        lemma_spelled_is_reported(r, f, at, 16);
    }
    if spelled_at(hay, at, "phar://"@) {
        assert(signatures()[17].0 == "phar://"@);
        lemma_spelled_is_reported(r, f, at, 17);
    }
    if spelled_at(hay, at, "expect://"@) {
        assert(signatures()[18].0 == "expect://"@);
        lemma_spelled_is_reported(r, f, at, 18);
    }
    if spelled_at(hay, at, "xp_cmdshell"@) {
        assert(signatures()[19].0 == "xp_cmdshell"@);
        lemma_spelled_is_reported(r, f, at, 19);
    }
    if spelled_at(hay, at, "sqlmap"@) {
        assert(signatures()[20].0 == "sqlmap"@);
        lemma_spelled_is_reported(r, f, at, 20);
    }
    if spelled_at(hay, at, "nikto"@) {
        assert(signatures()[21].0 == "nikto"@);
        lemma_spelled_is_reported(r, f, at, 21);
    }
    if spelled_at(hay, at, "nuclei"@) {
        assert(signatures()[22].0 == "nuclei"@);
        lemma_spelled_is_reported(r, f, at, 22);
    }
}

} // verus!
