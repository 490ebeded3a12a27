//! Anomalies of a request's shape: its method, the size and number of its
//! headers, and control characters in its path and query.
use vstd::prelude::*;

use crate::detectors;
use crate::detectors::{Detector, Group, Severity, Verdict, VerdictView};
use crate::request::{Request, RequestModel};
use crate::text;
use crate::text::{contains_char, copy_text, decimal_text, join3, same_text};

verus! {

/// The size of all headers beyond which a request is flagged.
pub const MAX_HEADER_BYTES: usize = 16384;

/// The number of headers beyond which a request is flagged.
pub const MAX_HEADER_COUNT: usize = 100;

/// The methods that are not flagged.
pub open spec fn is_allowed_method(m: Seq<char>) -> bool {
    ||| m == "GET"@
    ||| m == "POST"@
    ||| m == "PUT"@
    ||| m == "PATCH"@
    ||| m == "DELETE"@
    ||| m == "HEAD"@
    ||| m == "OPTIONS"@
}

/// A NUL stands in the path or in a query value.
pub open spec fn has_nul(r: RequestModel) -> bool {
    r.path.contains('\0') || exists|i: int|
        0 <= i < r.query_params.len() && (#[trigger] r.query_params[i]).1.contains('\0')
}

/// A line break character stands in the text.
pub open spec fn breaks_line(s: Seq<char>) -> bool {
    s.contains('\r') || s.contains('\n')
}

/// A line break character stands in the path or in a query value.
pub open spec fn has_line_break(r: RequestModel) -> bool {
    breaks_line(r.path) || exists|i: int|
        0 <= i < r.query_params.len() && breaks_line((#[trigger] r.query_params[i]).1)
}

/// A verdict of this detector; all are of medium severity.
pub open spec fn verdict_of(rule: Seq<char>, detail: Seq<char>) -> VerdictView {
    VerdictView { group: Group::Structure, rule, severity: Severity::Medium, detail }
}

/// The verdicts on a request, in order.
pub open spec fn structural_verdicts(r: RequestModel) -> Seq<VerdictView> {
    detectors::when(
        !is_allowed_method(r.method),
        verdict_of("method_not_allowed"@, "method `"@ + r.method + "` not in allowlist"@),
    ) + detectors::when(
        r.header_bytes > MAX_HEADER_BYTES,
        verdict_of(
            "headers_too_large"@,
            text::decimal(r.header_bytes) + " header bytes exceeds "@ + text::decimal(
                MAX_HEADER_BYTES as nat,
            ),
        ),
    ) + detectors::when(
        r.headers.len() > MAX_HEADER_COUNT,
        verdict_of(
            "too_many_headers"@,
            text::decimal(r.headers.len()) + " headers exceeds "@ + text::decimal(
                MAX_HEADER_COUNT as nat,
            ),
        ),
    ) + detectors::when(
        has_nul(r),
        verdict_of("null_byte"@, "NUL byte in request path or query"@),
    ) + detectors::when(
        has_line_break(r),
        verdict_of("crlf_injection"@, "CR/LF in request path or query"@),
    )
}

fn allowed_method(m: &str) -> (r: bool)
    ensures
        r == is_allowed_method(m@),
{
    same_text(m, "GET") || same_text(m, "POST") || same_text(m, "PUT") || same_text(m, "PATCH")
        || same_text(m, "DELETE") || same_text(m, "HEAD") || same_text(m, "OPTIONS")
}

fn line_break_in(s: &str) -> (r: bool)
    ensures
        r == breaks_line(s@),
{
    contains_char(s, '\r') || contains_char(s, '\n')
}

fn give(out: &mut Vec<Verdict>, rule: &'static str, detail: String)
    ensures
        detectors::verdict_views(final(out)@) == detectors::verdict_views(old(out)@) + seq![
            verdict_of(rule@, detail@),
        ],
{
    let ghost before = detectors::verdict_views(out@);
    let ghost view = verdict_of(rule@, detail@);
    let v = Verdict { group: Group::Structure, rule, severity: Severity::Medium, detail };
    out.push(v);
    assert(detectors::verdict_views(out@) =~= before + seq![view]);
}

/// Checks the shape of a request.
#[derive(Debug, Clone, Copy)]
pub struct StructuralDetector;

impl Detector for StructuralDetector {
    open spec fn group_spec(&self) -> Group {
        Group::Structure
    }

    open spec fn valid(&self) -> bool {
        true
    }

    open spec fn may_react(
        &self,
        req: RequestModel,
        verdicts: Seq<VerdictView>,
        after: &Self,
    ) -> bool {
        verdicts == structural_verdicts(req) && *after == *self
    }

    fn group(&self) -> (g: Group) {
        Group::Structure
    }

    fn inspect(&mut self, req: &Request) -> (r: Vec<Verdict>) {
        let mut out: Vec<Verdict> = Vec::new();
        assert(detectors::verdict_views(out@) =~= Seq::<VerdictView>::empty());
        if !allowed_method(&req.method) {
            give(
                &mut out,
                "method_not_allowed",
                join3("method `", &req.method, "` not in allowlist"),
            );
        }
        if req.header_bytes > MAX_HEADER_BYTES {
            give(
                &mut out,
                "headers_too_large",
                join3(
                    &decimal_text(req.header_bytes as u64),
                    " header bytes exceeds ",
                    &decimal_text(MAX_HEADER_BYTES as u64),
                ),
            );
        }
        if req.headers.len() > MAX_HEADER_COUNT {
            give(
                &mut out,
                "too_many_headers",
                join3(
                    &decimal_text(req.headers.len() as u64),
                    " headers exceeds ",
                    &decimal_text(MAX_HEADER_COUNT as u64),
                ),
            );
        }
        let mut nul = contains_char(&req.path, '\0');
        let mut line_break = line_break_in(&req.path);
        let ghost params = req@.query_params;
        let mut i: usize = 0;
        while i < req.query_params.len() && !(nul && line_break)
            invariant
                i <= req.query_params@.len(),
                params == req@.query_params,
                nul <==> (req.path@.contains('\0') || exists|k: int|
                    0 <= k < i && (#[trigger] params[k]).1.contains('\0')),
                line_break <==> (breaks_line(req.path@) || exists|k: int|
                    0 <= k < i && breaks_line((#[trigger] params[k]).1)),
            decreases req.query_params@.len() - i,
        {
            let value = &req.query_params[i].1;
            assert(params[i as int].1 == value@);
            if !nul {
                nul = contains_char(value, '\0');
            }
            if !line_break {
                line_break = line_break_in(value);
            }
            i = i + 1;
        }
        assert(nul == has_nul(req@));
        assert(line_break == has_line_break(req@));
        if nul {
            give(&mut out, "null_byte", copy_text("NUL byte in request path or query"));
        }
        if line_break {
            give(&mut out, "crlf_injection", copy_text("CR/LF in request path or query"));
        }
        assert(detectors::verdict_views(out@) =~= structural_verdicts(req@));
        out
    }
}

// ---------------------------------------------------------------------------
// Laws
// ---------------------------------------------------------------------------
/// Each anomaly is reported just when it is there, and by itself: a method that is not
/// one of the common ones, headers beyond sixteen kibibytes or beyond a hundred, and a
/// NUL or a line break in the path or in any query value.
pub proof fn law_each_anomaly_is_reported(r: RequestModel)
    ensures
        ({
            let vs = structural_verdicts(r);
            let medium = |rule: Seq<char>, detail: Seq<char>|
                VerdictView { group: Group::Structure, rule, severity: Severity::Medium, detail };
            let odd = r.method != "GET"@ && r.method != "POST"@ && r.method != "PUT"@ && r.method
                != "PATCH"@ && r.method != "DELETE"@ && r.method != "HEAD"@ && r.method
                != "OPTIONS"@;
            let nul = r.path.contains('\0') || exists|i: int|
                0 <= i < r.query_params.len() && (#[trigger] r.query_params[i]).1.contains('\0');
            let broken = r.path.contains('\r') || r.path.contains('\n') || exists|i: int|
                0 <= i < r.query_params.len() && ((#[trigger] r.query_params[i]).1.contains('\r')
                    || r.query_params[i].1.contains('\n'));
            &&& odd <==> vs.contains(
                medium("method_not_allowed"@, "method `"@ + r.method + "` not in allowlist"@),
            )
            &&& r.header_bytes > 16384 <==> vs.contains(
                medium(
                    "headers_too_large"@,
                    text::decimal(r.header_bytes) + " header bytes exceeds "@ + text::decimal(
                        16384,
                    ),
                ),
            )
            &&& r.headers.len() > 100 <==> vs.contains(
                medium(
                    "too_many_headers"@,
                    text::decimal(r.headers.len()) + " headers exceeds "@ + text::decimal(100),
                ),
            )
            &&& nul <==> vs.contains(
                medium("null_byte"@, "NUL byte in request path or query"@),
            )
            &&& broken <==> vs.contains(
                medium("crlf_injection"@, "CR/LF in request path or query"@),
            )
            &&& vs.len() == (if odd { 1int } else { 0 }) + (if r.header_bytes > 16384 {
                1int
            } else {
                0
            }) + (if r.headers.len() > 100 { 1int } else { 0 }) + (if nul { 1int } else { 0 }) + (
            if broken { 1int } else { 0 })
        }),
{
    reveal_strlit("method_not_allowed");
    reveal_strlit("headers_too_large");
    reveal_strlit("too_many_headers");
    reveal_strlit("null_byte");
    reveal_strlit("crlf_injection");
    assert("method_not_allowed"@.len() == 18);
    assert("headers_too_large"@.len() == 17);
    assert("too_many_headers"@.len() == 16);
    assert("null_byte"@.len() == 9);
    assert("crlf_injection"@.len() == 14);
    let v1 = verdict_of("method_not_allowed"@, "method `"@ + r.method + "` not in allowlist"@);
    let v2 = verdict_of(
        "headers_too_large"@,
        text::decimal(r.header_bytes) + " header bytes exceeds "@ + text::decimal(16384),
    );
    let v3 = verdict_of(
        "too_many_headers"@,
        text::decimal(r.headers.len()) + " headers exceeds "@ + text::decimal(100),
    );
    let v4 = verdict_of("null_byte"@, "NUL byte in request path or query"@);
    let v5 = verdict_of("crlf_injection"@, "CR/LF in request path or query"@);
    let a = detectors::when(!is_allowed_method(r.method), v1);
    let b = detectors::when(r.header_bytes > MAX_HEADER_BYTES, v2);
    let c = detectors::when(r.headers.len() > MAX_HEADER_COUNT, v3);
    let d = detectors::when(has_nul(r), v4);
    let e = detectors::when(has_line_break(r), v5);
    assert(structural_verdicts(r) == a + b + c + d + e);
    lemma_among_five(a, b, c, d, e, v1);
    lemma_among_five(a, b, c, d, e, v2);
    lemma_among_five(a, b, c, d, e, v3);
    lemma_among_five(a, b, c, d, e, v4);
    lemma_among_five(a, b, c, d, e, v5);
    lemma_when_contains(!is_allowed_method(r.method), v1);
    lemma_when_contains(r.header_bytes > MAX_HEADER_BYTES, v2);
    lemma_when_contains(r.headers.len() > MAX_HEADER_COUNT, v3);
    lemma_when_contains(has_nul(r), v4);
    lemma_when_contains(has_line_break(r), v5);
    assert(has_line_break(r) <==> (r.path.contains('\r') || r.path.contains('\n') || exists|i: int|
        0 <= i < r.query_params.len() && ((#[trigger] r.query_params[i]).1.contains('\r')
            || r.query_params[i].1.contains('\n')))) by {
        if exists|i: int|
            0 <= i < r.query_params.len() && ((#[trigger] r.query_params[i]).1.contains('\r')
                || r.query_params[i].1.contains('\n')) {
            let i = choose|i: int|
                0 <= i < r.query_params.len() && ((#[trigger] r.query_params[i]).1.contains('\r')
                    || r.query_params[i].1.contains('\n'));
            assert(breaks_line(r.query_params[i].1));
        }
    }
}

proof fn lemma_when_contains(condition: bool, v: VerdictView)
    ensures
        forall|w: VerdictView| #[trigger]
            detectors::when(condition, v).contains(w) <==> condition && w == v,
{
    if condition {
        assert(detectors::when(condition, v)[0] == v);
    }
}

proof fn lemma_among_five(
    a: Seq<VerdictView>,
    b: Seq<VerdictView>,
    c: Seq<VerdictView>,
    d: Seq<VerdictView>,
    e: Seq<VerdictView>,
    v: VerdictView,
)
    ensures
        (a + b + c + d + e).contains(v) <==> a.contains(v) || b.contains(v) || c.contains(v)
            || d.contains(v) || e.contains(v),
{
    vstd::seq_lib::lemma_seq_concat_contains_all_elements(a, b, v);
    vstd::seq_lib::lemma_seq_concat_contains_all_elements(a + b, c, v);
    vstd::seq_lib::lemma_seq_concat_contains_all_elements(a + b + c, d, v);
    vstd::seq_lib::lemma_seq_concat_contains_all_elements(a + b + c + d, e, v);
}

} // verus!
