//! SQL injection and cross-site scripting.
//!
//! The tokenizers are outside of this library: what they say of each field
//! comes with the request. Which suffixes of the user agent they are asked
//! about, and which verdicts follow, is decided here.
use vstd::prelude::*;
use vstd::string::*;

use crate::bytes;
use crate::bytes::lossy_text;
use crate::detectors;
use crate::detectors::{Detector, Group, Severity, Verdict, VerdictView};
use crate::request;
use crate::request::{Request, RequestModel};
use crate::text;
use crate::text::{
    chars_of, find_char, join2, same_text, scrub, space_char, text_between,
};

verus! {

// ---------------------------------------------------------------------------
// User-agent suffixes
// ---------------------------------------------------------------------------
/// The last place at which `c` stands in `s`.
pub open spec fn last_index(s: Seq<char>, c: char) -> Option<int>
    decreases s.len(),
{
    if s.len() == 0 {
        None
    } else if s.last() == c {
        Some(s.len() - 1)
    } else {
        last_index(s.drop_last(), c)
    }
}

/// The text behind position `i`, trimmed, unless nothing is left.
pub open spec fn tail_behind(s: Seq<char>, i: int) -> Option<Seq<char>> {
    let tail = text::trim(s.skip(i + 1));
    if tail.len() == 0 {
        None
    } else {
        Some(tail)
    }
}

/// The text behind the last closing parenthesis.
pub open spec fn after_paren(ua: Seq<char>) -> Option<Seq<char>> {
    match last_index(ua, ')') {
        Some(i) => tail_behind(ua, i),
        None => None,
    }
}

/// The text behind the first space, unless it is the one behind the
/// parenthesis.
pub open spec fn after_space(ua: Seq<char>) -> Option<Seq<char>> {
    match text::first_index(ua, ' ') {
        Some(i) => if tail_behind(ua, i) == after_paren(ua) {
            None
        } else {
            tail_behind(ua, i)
        },
        None => None,
    }
}

fn find_last(s: &[char], c: char) -> (r: Option<usize>)
    ensures
        match r {
            Some(i) => last_index(s@, c) == Some(i as int) && i < s@.len(),
            None => last_index(s@, c) is None,
        },
{
    let mut i: usize = s.len();
    assert(s@.take(s@.len() as int) == s@);
    while i > 0
        invariant
            i <= s@.len(),
            last_index(s@, c) == last_index(s@.take(i as int), c),
        decreases i,
    {
        if s[i - 1] == c {
            return Some(i - 1);
        }
        assert(s@.take(i as int).drop_last() == s@.take(i - 1));
        i = i - 1;
    }
    None
}

/// The part of `ua` behind position `i`, trimmed, unless nothing is left.
fn find_tail<'a>(ua: &'a str, c: &[char], i: usize) -> (r: Option<&'a str>)
    requires
        c@ == ua@,
        i < ua@.len(),
    ensures
        request::opt_text(r) == tail_behind(ua@, i as int),
{
    let n: usize = c.len();
    let mut from: usize = i + 1;
    let ghost rest = ua@.skip(i + 1);
    assert(ua@.skip(from as int) == rest);
    while from < n && space_char(c[from])
        invariant
            i < from <= n,
            n == c@.len(),
            c@ == ua@,
            rest == ua@.skip(i + 1),
            text::trim_start(rest) == text::trim_start(ua@.skip(from as int)),
        decreases n - from,
    {
        assert(ua@.skip(from as int).skip(1) == ua@.skip(from + 1));
        from = from + 1;
    }
    let mut to: usize = n;
    assert(ua@.skip(from as int) == ua@.subrange(from as int, to as int));
    while to > from && space_char(c[to - 1])
        invariant
            from <= to <= n,
            n == c@.len(),
            c@ == ua@,
            rest == ua@.skip(i + 1),
            text::trim(rest) == text::trim_end(ua@.subrange(from as int, to as int)),
        decreases to,
    {
        assert(ua@.subrange(from as int, to as int).drop_last() == ua@.subrange(
            from as int,
            to - 1,
        ));
        to = to - 1;
    }
    if from == to {
        None
    } else {
        Some(ua.substring_char(from, to))
    }
}

/// The suffixes of a user agent that are probed for SQL on their own, since a
/// browser-shaped prefix can hide it. The narrowest comes first.
pub fn ua_suffix_candidates<'a>(ua: &'a str) -> (r: [Option<&'a str>; 2])
    ensures
        request::opt_text(r[0]) == after_paren(ua@),
        request::opt_text(r[1]) == after_space(ua@),
{
    let c = chars_of(ua);
    let paren = match find_last(&c, ')') {
        Some(i) => find_tail(ua, &c, i),
        None => None,
    };
    let space = match find_char(&c, ' ') {
        Some(i) => {
            proof {
                text::lemma_first_index(ua@, ' ');
            }
            match find_tail(ua, &c, i) {
                Some(tail) => match paren {
                    Some(p) => if same_text(tail, p) {
                        None
                    } else {
                        Some(tail)
                    },
                    None => Some(tail),
                },
                None => None,
            }
        },
        None => None,
    };
    [paren, space]
}

// ---------------------------------------------------------------------------
// Details
// ---------------------------------------------------------------------------
/// The number of characters of a field that a verdict shows.
pub const PREVIEW_CHARS: usize = 80;

/// The first `n` characters, or all.
pub open spec fn at_most(s: Seq<char>, n: int) -> Seq<char> {
    if s.len() <= n {
        s
    } else {
        s.take(n)
    }
}

/// A short preview of some bytes that cannot break a log line.
pub open spec fn preview(b: Seq<u8>) -> Seq<char> {
    text::scrubbed(at_most(bytes::lossy(b), PREVIEW_CHARS as int))
}

/// A short preview of some bytes, safe to log.
pub fn truncate_bytes(b: &[u8]) -> (r: String)
    ensures
        r@ == preview(b@),
        r@.len() <= PREVIEW_CHARS,
{
    let t = lossy_text(b);
    let c = chars_of(&t);
    let n: usize = if c.len() > PREVIEW_CHARS {
        PREVIEW_CHARS
    } else {
        c.len()
    };
    let short = text_between(&c, 0, n);
    assert(short@ =~= at_most(t@, PREVIEW_CHARS as int));
    scrub(&short)
}

// ---------------------------------------------------------------------------
// The verdicts
// ---------------------------------------------------------------------------
/// The answer for one question; a missing one is no.
pub open spec fn flagged(answers: Seq<bool>, i: int) -> bool {
    0 <= i < answers.len() && answers[i]
}

/// The verdict for SQL injection.
pub open spec fn sqli_verdict(detail: Seq<char>) -> VerdictView {
    VerdictView { group: Group::Injection, rule: "sqli"@, severity: Severity::Critical, detail }
}

/// The verdict for cross-site scripting.
pub open spec fn xss_verdict(detail: Seq<char>) -> VerdictView {
    VerdictView { group: Group::Injection, rule: "xss"@, severity: Severity::High, detail }
}

/// The verdicts on the first `n` fields.
pub open spec fn field_verdicts(
    fields: Seq<Seq<u8>>,
    sqli: Seq<bool>,
    xss: Seq<bool>,
    n: nat,
) -> Seq<VerdictView>
    decreases n,
{
    if n == 0 {
        Seq::empty()
    } else {
        let i = n - 1;
        field_verdicts(fields, sqli, xss, i as nat) + detectors::when(
            flagged(sqli, i),
            sqli_verdict("SQLi in field: "@ + preview(fields[i])),
        ) + detectors::when(
            flagged(xss, i),
            xss_verdict("XSS in field: "@ + preview(fields[i])),
        )
    }
}

/// SQL injection was found in one of the first `n` fields.
pub open spec fn any_sqli(sqli: Seq<bool>, n: int) -> bool {
    exists|i: int| 0 <= i < n && #[trigger] flagged(sqli, i)
}

/// The verdict for a suffix of the user agent.
pub open spec fn suffix_verdict(suffix: Seq<char>) -> VerdictView {
    sqli_verdict("SQLi in User-Agent suffix: "@ + preview(vstd::utf8::encode_utf8(suffix)))
}

/// The verdicts on the suffixes of the user agent: at most one.
pub open spec fn suffix_verdicts(ua: Option<Seq<char>>, suffix_sqli: Seq<bool>) -> Seq<
    VerdictView,
> {
    match ua {
        None => Seq::empty(),
        Some(ua) => if after_paren(ua) is Some && flagged(suffix_sqli, 0) {
            seq![suffix_verdict(after_paren(ua)->0)]
        } else if after_space(ua) is Some && flagged(suffix_sqli, 1) {
            seq![suffix_verdict(after_space(ua)->0)]
        } else {
            Seq::empty()
        },
    }
}

/// The verdicts on a request. The user agent's suffixes count only where no
/// field is SQL injection already.
pub open spec fn injection_verdicts(r: RequestModel) -> Seq<VerdictView> {
    let fields = request::fields(r);
    let found = field_verdicts(fields, r.sqli, r.xss, fields.len());
    if any_sqli(r.sqli, fields.len() as int) {
        found
    } else {
        found + suffix_verdicts(request::header_value(r.headers, "user-agent"@), r.suffix_sqli)
    }
}

fn is_flagged(answers: &Vec<bool>, i: usize) -> (r: bool)
    ensures
        r == flagged(answers@, i as int),
{
    i < answers.len() && answers[i]
}

fn give_sqli(out: &mut Vec<Verdict>, what: &str, bytes: &[u8])
    ensures
        detectors::verdict_views(final(out)@) == detectors::verdict_views(old(out)@) + seq![
            sqli_verdict(what@ + preview(bytes@)),
        ],
{
    let ghost before = detectors::verdict_views(out@);
    let detail = join2(what, &truncate_bytes(bytes));
    let v = Verdict {
        group: Group::Injection,
        rule: "sqli",
        severity: Severity::Critical,
        detail,
    };
    let ghost view = v@;
    out.push(v);
    assert(detectors::verdict_views(out@) =~= before + seq![view]);
}

fn give_xss(out: &mut Vec<Verdict>, bytes: &[u8])
    ensures
        detectors::verdict_views(final(out)@) == detectors::verdict_views(old(out)@) + seq![
            xss_verdict("XSS in field: "@ + preview(bytes@)),
        ],
{
    let ghost before = detectors::verdict_views(out@);
    let detail = join2("XSS in field: ", &truncate_bytes(bytes));
    let v = Verdict { group: Group::Injection, rule: "xss", severity: Severity::High, detail };
    let ghost view = v@;
    out.push(v);
    assert(detectors::verdict_views(out@) =~= before + seq![view]);
}

/// Turns what the tokenizers said of a request into verdicts.
#[derive(Debug, Clone, Copy)]
pub struct InjectionDetector;

impl Detector for InjectionDetector {
    open spec fn group_spec(&self) -> Group {
        Group::Injection
    }

    open spec fn valid(&self) -> bool {
        true
    }

    open spec fn may_react(
        &self,
        req: RequestModel,
        verdicts: Seq<VerdictView>,
        after: &Self,
    ) -> bool {
        verdicts == injection_verdicts(req) && *after == *self
    }

    fn group(&self) -> (g: Group) {
        Group::Injection
    }

    fn inspect(&mut self, req: &Request) -> (r: Vec<Verdict>) {
        let fields = req.inspectable_fields();
        let ghost all = request::fields(req@);
        let ghost sqli = req@.sqli;
        let ghost xss = req@.xss;
        let mut out: Vec<Verdict> = Vec::new();
        let mut sqli_found = false;
        let mut i: usize = 0;
        assert(detectors::verdict_views(out@) =~= field_verdicts(all, sqli, xss, 0));
        while i < fields.len()
            invariant
                i <= fields@.len(),
                all == request::slices(fields@),
                sqli == req.findings.sqli@,
                xss == req.findings.xss@,
                sqli_found == any_sqli(sqli, i as int),
                detectors::verdict_views(out@) == field_verdicts(all, sqli, xss, i as nat),
            decreases fields@.len() - i,
        {
            let field = fields[i];
            assert(all[i as int] == field@);
            let ghost before = detectors::verdict_views(out@);
            if is_flagged(&req.findings.sqli, i) {
                assert(flagged(sqli, i as int));
                sqli_found = true;
                give_sqli(&mut out, "SQLi in field: ", field);
            }
            if is_flagged(&req.findings.xss, i) {
                give_xss(&mut out, field);
            }
            assert(detectors::verdict_views(out@) =~= field_verdicts(
                all,
                sqli,
                xss,
                (i + 1) as nat,
            ));
            assert(sqli_found == any_sqli(sqli, i + 1)) by {
                if any_sqli(sqli, i + 1) && !flagged(sqli, i as int) {
                    let k = choose|k: int| 0 <= k < i + 1 && #[trigger] flagged(sqli, k);
                    assert(k < i);
                }
                if any_sqli(sqli, i as int) {
                    let k = choose|k: int| 0 <= k < i && #[trigger] flagged(sqli, k);
                    assert(flagged(sqli, k));
                }
            }
            i = i + 1;
        }
        let ghost found = detectors::verdict_views(out@);
        if !sqli_found {
            match req.user_agent() {
                Some(ua) => {
                    let candidates = ua_suffix_candidates(ua);
                    let mut done = false;
                    match candidates[0] {
                        Some(suffix) => {
                            if is_flagged(&req.findings.suffix_sqli, 0) {
                                give_sqli(
                                    &mut out,
                                    "SQLi in User-Agent suffix: ",
                                    suffix.as_bytes(),
                                );
                                done = true;
                            }
                        },
                        None => {},
                    }
                    if !done {
                        match candidates[1] {
                            Some(suffix) => {
                                if is_flagged(&req.findings.suffix_sqli, 1) {
                                    give_sqli(
                                        &mut out,
                                        "SQLi in User-Agent suffix: ",
                                        suffix.as_bytes(),
                                    );
                                }
                            },
                            None => {},
                        }
                    }
                },
                None => {},
            }
        }
        assert(detectors::verdict_views(out@) =~= injection_verdicts(req@));
        out
    }
}

// ---------------------------------------------------------------------------
// Laws
// ---------------------------------------------------------------------------
/// Every field that tokenizes as an attack gets its verdict, whichever field it is,
/// and shows it.
pub proof fn law_every_flagged_field_is_reported(r: RequestModel, i: int)
    requires
        0 <= i < request::fields(r).len(),
    ensures
        i < r.xss.len() && r.xss[i] ==> injection_verdicts(r).contains(
            VerdictView {
                group: Group::Injection,
                rule: "xss"@,
                severity: Severity::High,
                detail: "XSS in field: "@ + preview(request::fields(r)[i]),
            },
        ),
        i < r.sqli.len() && r.sqli[i] ==> injection_verdicts(r).contains(
            VerdictView {
                group: Group::Injection,
                rule: "sqli"@,
                severity: Severity::Critical,
                detail: "SQLi in field: "@ + preview(request::fields(r)[i]),
            },
        ),
{
    let fields = request::fields(r);
    lemma_field_reported(fields, r.sqli, r.xss, fields.len(), i);
    let found = field_verdicts(fields, r.sqli, r.xss, fields.len());
    let more = suffix_verdicts(request::header_value(r.headers, "user-agent"@), r.suffix_sqli);
    let x = xss_verdict("XSS in field: "@ + preview(fields[i]));
    let s = sqli_verdict("SQLi in field: "@ + preview(fields[i]));
    vstd::seq_lib::lemma_seq_concat_contains_all_elements(found, more, x);
    vstd::seq_lib::lemma_seq_concat_contains_all_elements(found, more, s);
}

proof fn lemma_field_reported(
    fields: Seq<Seq<u8>>,
    sqli: Seq<bool>,
    xss: Seq<bool>,
    n: nat,
    i: int,
)
    requires
        0 <= i < n,
    ensures
        i < xss.len() && xss[i] ==> field_verdicts(fields, sqli, xss, n).contains(
            xss_verdict("XSS in field: "@ + preview(fields[i])),
        ),
        i < sqli.len() && sqli[i] ==> field_verdicts(fields, sqli, xss, n).contains(
            sqli_verdict("SQLi in field: "@ + preview(fields[i])),
        ),
    decreases n,
{
    let m = (n - 1) as nat;
    let x = xss_verdict("XSS in field: "@ + preview(fields[i]));
    let s = sqli_verdict("SQLi in field: "@ + preview(fields[i]));
    let before = field_verdicts(fields, sqli, xss, m);
    let a = detectors::when(
        flagged(sqli, m as int),
        sqli_verdict("SQLi in field: "@ + preview(fields[m as int])),
    );
    let b = detectors::when(
        flagged(xss, m as int),
        xss_verdict("XSS in field: "@ + preview(fields[m as int])),
    );
    if i < m {
        lemma_field_reported(fields, sqli, xss, m, i);
    } else {
        if flagged(sqli, i) {
            assert(a[0] == s);
        }
        if flagged(xss, i) {
            assert(b[0] == x);
        }
    }
    vstd::seq_lib::lemma_seq_concat_contains_all_elements(before, a, s);
    vstd::seq_lib::lemma_seq_concat_contains_all_elements(before + a, b, s);
    vstd::seq_lib::lemma_seq_concat_contains_all_elements(before, a, x);
    vstd::seq_lib::lemma_seq_concat_contains_all_elements(before + a, b, x);
}

/// A verdict comes from a field that tokenizes as that attack, or from a suffix of the
/// user agent: from one of those only where no field tokenizes as SQL injection.
pub proof fn law_verdicts_come_from_findings(r: RequestModel, v: VerdictView)
    requires
        injection_verdicts(r).contains(v),
    ensures
        v.group == Group::Injection,
        ({
            let fields = request::fields(r);
            ||| exists|i: int|
                0 <= i < fields.len() && i < r.xss.len() && r.xss[i] && v.rule == "xss"@
                    && v.severity == Severity::High && v.detail == "XSS in field: "@ + preview(
                    #[trigger] fields[i],
                )
            ||| exists|i: int|
                0 <= i < fields.len() && i < r.sqli.len() && r.sqli[i] && v.rule == "sqli"@
                    && v.severity == Severity::Critical && v.detail == "SQLi in field: "@ + preview(
                    #[trigger] fields[i],
                )
            ||| {
                &&& v.rule == "sqli"@
                &&& v.severity == Severity::Critical
                &&& forall|i: int|
                    0 <= i < fields.len() && i < r.sqli.len() ==> !#[trigger] r.sqli[i]
                &&& r.suffix_sqli.contains(true)
            }
        }),
{
    let fields = request::fields(r);
    let found = field_verdicts(fields, r.sqli, r.xss, fields.len());
    let more = suffix_verdicts(request::header_value(r.headers, "user-agent"@), r.suffix_sqli);
    vstd::seq_lib::lemma_seq_concat_contains_all_elements(found, more, v);
    if found.contains(v) {
        lemma_field_verdict_source(fields, r.sqli, r.xss, fields.len(), v);
    } else {
        assert(!any_sqli(r.sqli, fields.len() as int));
        assert forall|i: int| 0 <= i < fields.len() && i < r.sqli.len() implies
            !#[trigger] r.sqli[i] by {
            assert(flagged(r.sqli, i) == r.sqli[i]);
        }
        assert(more.contains(v));
        assert(more[0] == v);
        if flagged(r.suffix_sqli, 0) {
            assert(r.suffix_sqli[0]);
        }
        if flagged(r.suffix_sqli, 1) {
            assert(r.suffix_sqli[1]);
        }
    }
}

proof fn lemma_field_verdict_source(
    fields: Seq<Seq<u8>>,
    sqli: Seq<bool>,
    xss: Seq<bool>,
    n: nat,
    v: VerdictView,
)
    requires
        n <= fields.len(),
        field_verdicts(fields, sqli, xss, n).contains(v),
    ensures
        v.group == Group::Injection,
        ({
            ||| exists|i: int|
                0 <= i < n && i < xss.len() && xss[i] && v == xss_verdict(
                    "XSS in field: "@ + preview(#[trigger] fields[i]),
                )
            ||| exists|i: int|
                0 <= i < n && i < sqli.len() && sqli[i] && v == sqli_verdict(
                    "SQLi in field: "@ + preview(#[trigger] fields[i]),
                )
        }),
    decreases n,
{
    if n > 0 {
        let m = (n - 1) as nat;
        let before = field_verdicts(fields, sqli, xss, m);
        let a = detectors::when(
            flagged(sqli, m as int),
            sqli_verdict("SQLi in field: "@ + preview(fields[m as int])),
        );
        let b = detectors::when(
            flagged(xss, m as int),
            xss_verdict("XSS in field: "@ + preview(fields[m as int])),
        );
        vstd::seq_lib::lemma_seq_concat_contains_all_elements(before + a, b, v);
        vstd::seq_lib::lemma_seq_concat_contains_all_elements(before, a, v);
        if before.contains(v) {
            lemma_field_verdict_source(fields, sqli, xss, m, v);
        } else if a.contains(v) {
            assert(a[0] == v);
            assert(fields[m as int] == fields[m as int]);
        } else {
            assert(b[0] == v);
            assert(fields[m as int] == fields[m as int]);
        }
    }
}

/// Where a part of the user agent tokenizes as SQL injection and no field does, there is
/// a verdict that shows it: for what stands behind the last parenthesis or, failing
/// that, behind the first space.
pub proof fn law_user_agent_suffix_is_reported(r: RequestModel, ua: Seq<char>)
    requires
        request::header_value(r.headers, "user-agent"@) == Some(ua),
        forall|i: int|
            0 <= i < request::fields(r).len() && i < r.sqli.len() ==> !#[trigger] r.sqli[i],
    ensures
        ({
            let verdict = |suffix: Seq<char>|
                VerdictView {
                    group: Group::Injection,
                    rule: "sqli"@,
                    severity: Severity::Critical,
                    detail: "SQLi in User-Agent suffix: "@ + preview(
                        vstd::utf8::encode_utf8(suffix),
                    ),
                };
            &&& after_paren(ua) matches Some(t) ==> r.suffix_sqli.len() > 0 && r.suffix_sqli[0]
                ==> injection_verdicts(r).contains(verdict(t))
            &&& after_space(ua) matches Some(t) ==> r.suffix_sqli.len() > 1 && r.suffix_sqli[1]
                && (after_paren(ua) is None || !r.suffix_sqli[0]) ==> injection_verdicts(
                r,
            ).contains(verdict(t))
        }),
{
    let fields = request::fields(r);
    let found = field_verdicts(fields, r.sqli, r.xss, fields.len());
    let more = suffix_verdicts(Some(ua), r.suffix_sqli);
    assert(!any_sqli(r.sqli, fields.len() as int)) by {
        if any_sqli(r.sqli, fields.len() as int) {
            let k = choose|k: int| 0 <= k < fields.len() && #[trigger] flagged(r.sqli, k);
            assert(r.sqli[k]);
        }
    }
    if let Some(t) = after_paren(ua) {
        vstd::seq_lib::lemma_seq_concat_contains_all_elements(found, more, suffix_verdict(t));
        if flagged(r.suffix_sqli, 0) {
            assert(more[0] == suffix_verdict(t));
        }
    }
    if let Some(t) = after_space(ua) {
        vstd::seq_lib::lemma_seq_concat_contains_all_elements(found, more, suffix_verdict(t));
        if flagged(r.suffix_sqli, 1) && (after_paren(ua) is None || !flagged(r.suffix_sqli, 0)) {
            assert(more[0] == suffix_verdict(t));
        }
    }
}

/// The two suffixes of a user agent: what stands behind its last closing parenthesis,
/// and what stands behind its first space, without the white space around them. The
/// second is not asked about where it is the first, and an empty one never is.
pub proof fn law_suffixes_of_a_user_agent(front: Seq<char>, tail: Seq<char>)
    ensures
        !tail.contains(')') ==> after_paren(front + seq![')'] + tail) == if text::trim(tail).len()
            == 0 {
            None
        } else {
            Some(text::trim(tail))
        },
        !front.contains(' ') ==> {
            let ua = front + seq![' '] + tail;
            after_space(ua) == if text::trim(tail).len() == 0 || after_paren(ua) == Some(
                text::trim(tail),
            ) {
                None
            } else {
                Some(text::trim(tail))
            }
        },
        !front.contains(')') ==> after_paren(front) is None,
        !front.contains(' ') ==> after_space(front) is None,
{
    let at = front.len() as int;
    let p = front + seq![')'] + tail;
    let s = front + seq![' '] + tail;
    if !tail.contains(')') {
        lemma_last_index(p, ')');
        assert(p[at] == ')');
        match last_index(p, ')') {
            Some(i) => {
                if i > at {
                    assert(tail[i - at - 1] == ')');
                }
            },
            None => {},
        }
        assert(p.skip(at + 1) =~= tail);
    }
    if !front.contains(' ') {
        text::lemma_first_index(s, ' ');
        assert(s[at] == ' ');
        match text::first_index(s, ' ') {
            Some(i) => {
                if i < at {
                    assert(front[i] == ' ');
                }
            },
            None => {},
        }
        assert(s.skip(at + 1) =~= tail);
        text::lemma_first_index(front, ' ');
        if let Some(i) = text::first_index(front, ' ') {
            assert(front[i] == ' ');
        }
    }
    if !front.contains(')') {
        lemma_last_index(front, ')');
        if let Some(i) = last_index(front, ')') {
            assert(front[i] == ')');
        }
    }
}

/// What `last_index` finds: the greatest position of the character.
pub proof fn lemma_last_index(s: Seq<char>, c: char)
    ensures
        match last_index(s, c) {
            Some(i) => 0 <= i < s.len() && s[i] == c && forall|k: int|
                i < k < s.len() ==> s[k] != c,
            None => forall|k: int| 0 <= k < s.len() ==> s[k] != c,
        },
    decreases s.len(),
{
    if s.len() > 0 && s.last() != c {
        let t = s.drop_last();
        lemma_last_index(t, c);
        match last_index(t, c) {
            Some(i) => {
                assert forall|k: int| i < k < s.len() implies s[k] != c by {
                    if k < t.len() {
                        assert(s[k] == t[k]);
                    }
                }
            },
            None => {
                assert forall|k: int| 0 <= k < s.len() implies s[k] != c by {
                    if k < t.len() {
                        assert(s[k] == t[k]);
                    }
                }
            },
        }
    }
}

/// A preview shows the first eighty characters of a field, and shows control characters
/// as dots.
pub proof fn law_preview_shows_the_beginning(b: Seq<u8>, i: int)
    ensures
        ({
            let t = bytes::lossy(b);
            &&& preview(b).len() == if t.len() < 80 {
                t.len()
            } else {
                80
            }
            &&& 0 <= i < preview(b).len() ==> preview(b)[i] == if (t[i] as u32) < 0x20 || t[i] as u32
                == 0x7f {
                '.'
            } else {
                t[i]
            }
        }),
{
}

/// Each flag on a field gives one verdict, and nothing else about it does.
pub proof fn law_each_flag_gives_one_verdict(
    fields: Seq<Seq<u8>>,
    sqli: Seq<bool>,
    xss: Seq<bool>,
    n: nat,
)
    ensures
        ({
            let more = field_verdicts(fields, sqli, xss, n + 1).len() - field_verdicts(
                fields,
                sqli,
                xss,
                n,
            ).len();
            &&& field_verdicts(fields, sqli, xss, 0).len() == 0
            &&& more == 2 <==> n < sqli.len() && sqli[n as int] && n < xss.len() && xss[n as int]
            &&& more == 0 <==> !(n < sqli.len() && sqli[n as int]) && !(n < xss.len()
                && xss[n as int])
            &&& 0 <= more <= 2
        }),
{
}

} // verus!
