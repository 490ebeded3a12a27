//! The answers of the admin server.
use vstd::prelude::*;
use vstd::utf8::*;

use crate::text;
use crate::text::{chars_of, copy_text, push_text, same_text, starts_with, text_between};

verus! {

/// The version that the relay reports.
pub const VERSION: &'static str = "0.4.0";

/// What stands before a token in an `Authorization` header.
pub const SCHEME: &'static str = "Bearer ";

// ---------------------------------------------------------------------------
// Authorization
// ---------------------------------------------------------------------------
/// Whether bytes are the same. The time it takes depends on their number only.
pub fn constant_time_eq(a: &[u8], b: &[u8]) -> (r: bool)
    ensures
        r == (a@ == b@),
{
    if a.len() != b.len() {
        return false;
    }
    let n: usize = a.len();
    let mut diff: u8 = 0;
    let mut i: usize = 0;
    while i < n
        invariant
            i <= n,
            n == a@.len(),
            n == b@.len(),
            diff == 0 <==> (forall|k: int| 0 <= k < i ==> a@[k] == b@[k]),
        decreases n - i,
    {
        let x: u8 = a[i];
        let y: u8 = b[i];
        assert((diff | (x ^ y)) == 0 <==> (diff == 0 && x == y)) by (bit_vector);
        diff = diff | (x ^ y);
        i = i + 1;
    }
    assert(diff == 0 ==> a@ =~= b@);
    diff == 0
}

/// Whether a request may see what is protected: no token is asked for, or the
/// header presents it.
pub open spec fn is_allowed(configured: Option<Seq<char>>, header: Option<Seq<char>>) -> bool {
    configured is Some ==> header == Some(SCHEME@ + configured->0)
}

/// An optional text, by its characters.
pub open spec fn opt_str(o: Option<&str>) -> Option<Seq<char>> {
    match o {
        Some(s) => Some(s@),
        None => None,
    }
}

/// Whether a request may see what is protected.
pub fn is_authorized(configured: Option<&str>, auth_header: Option<&str>) -> (r: bool)
    ensures
        r == is_allowed(opt_str(configured), opt_str(auth_header)),
{
    let expected = match configured {
        Some(t) => t,
        None => {
            return true;
        },
    };
    let header = match auth_header {
        Some(h) => h,
        None => {
            return false;
        },
    };
    proof {
        reveal_strlit("Bearer ");
    }
    if !starts_with(header, SCHEME) {
        proof {
            if header@ == SCHEME@ + expected@ {
                assert(header@.take(7) =~= SCHEME@);
            }
        }
        return false;
    }
    let c = chars_of(header);
    let presented = text_between(&c, 7, c.len());
    let r = constant_time_eq(presented.as_str().as_bytes(), expected.as_bytes());
    proof {
        encode_utf8_decode_utf8(presented@);
        encode_utf8_decode_utf8(expected@);
        assert(header@ =~= SCHEME@ + presented@);
        if header@ == SCHEME@ + expected@ {
            assert(presented@ =~= header@.skip(7));
            assert(expected@ =~= header@.skip(7));
        }
    }
    r
}

// ---------------------------------------------------------------------------
// Answers
// ---------------------------------------------------------------------------
/// The body of an answer.
#[derive(Debug, PartialEq, Eq)]
pub enum Body {
    /// A text.
    Text(String),
    /// The metrics, as they stand.
    Metrics,
}

/// The answer to a request.
#[derive(Debug, PartialEq, Eq)]
pub struct Reply {
    /// The status.
    pub status: u16,
    /// The content type.
    pub content_type: &'static str,
    /// The body.
    pub body: Body,
}

/// What an answer says.
pub enum ReplyModel {
    Json { status: u16, body: Seq<char> },
    Metrics,
}

impl View for Reply {
    type V = ReplyModel;

    open spec fn view(&self) -> ReplyModel {
        match self.body {
            Body::Text(t) => ReplyModel::Json { status: self.status, body: t@ },
            Body::Metrics => ReplyModel::Metrics,
        }
    }
}

impl Reply {
    /// The type says what the body is.
    pub open spec fn wf(&self) -> bool {
        match self.body {
            Body::Text(_) => self.content_type@ == "application/json"@,
            Body::Metrics => self.status == 200 && self.content_type@
                == "text/plain; version=0.0.4"@,
        }
    }
}

/// A request that an orchestrator makes to see how the relay is.
pub open spec fn is_probe(path: Seq<char>) -> bool {
    path == "/healthz"@ || path == "/readyz"@
}

/// The version as JSON.
pub open spec fn version_json(git_sha: Seq<char>) -> Seq<char> {
    "{\"version\":\""@ + VERSION@ + "\",\"git_sha\":\""@ + git_sha + "\"}"@
}

/// The answer to a request.
pub open spec fn answer(
    path: Seq<char>,
    header: Option<Seq<char>>,
    token: Option<Seq<char>>,
    ready: bool,
    git_sha: Seq<char>,
) -> ReplyModel {
    if !is_probe(path) && !is_allowed(token, header) {
        ReplyModel::Json { status: 401, body: "{\"error\":\"unauthorized\"}"@ }
    } else if path == "/healthz"@ {
        ReplyModel::Json { status: 200, body: "{\"status\":\"ok\"}"@ }
    } else if path == "/readyz"@ {
        if ready {
            ReplyModel::Json { status: 200, body: "{\"status\":\"ready\"}"@ }
        } else {
            ReplyModel::Json {
                status: 503,
                body: "{\"status\":\"not_ready\",\"reason\":\"pipeline_not_running\"}"@,
            }
        }
    } else if path == "/metrics"@ {
        ReplyModel::Metrics
    } else if path == "/version"@ {
        ReplyModel::Json { status: 200, body: version_json(git_sha) }
    } else {
        ReplyModel::Json { status: 404, body: "{\"error\":\"not found\"}"@ }
    }
}

fn json(status: u16, body: String) -> (r: Reply)
    ensures
        r.wf(),
        r@ == (ReplyModel::Json { status, body: body@ }),
{
    Reply { status, content_type: "application/json", body: Body::Text(body) }
}

/// The answer to a request.
pub fn route(
    path: &str,
    auth_header: Option<&str>,
    token: Option<&str>,
    ready: bool,
    git_sha: &str,
) -> (r: Reply)
    ensures
        r.wf(),
        r@ == answer(path@, opt_str(auth_header), opt_str(token), ready, git_sha@),
{
    if !same_text(path, "/healthz") && !same_text(path, "/readyz") {
        if !is_authorized(token, auth_header) {
            return json(401, copy_text("{\"error\":\"unauthorized\"}"));
        }
    }
    if same_text(path, "/healthz") {
        json(200, copy_text("{\"status\":\"ok\"}"))
    } else if same_text(path, "/readyz") {
        if ready {
            json(200, copy_text("{\"status\":\"ready\"}"))
        } else {
            json(503, copy_text("{\"status\":\"not_ready\",\"reason\":\"pipeline_not_running\"}"))
        }
    } else if same_text(path, "/metrics") {
        Reply { status: 200, content_type: "text/plain; version=0.0.4", body: Body::Metrics }
    } else if same_text(path, "/version") {
        let mut body = copy_text("{\"version\":\"");
        push_text(&mut body, VERSION);
        push_text(&mut body, "\",\"git_sha\":\"");
        push_text(&mut body, git_sha);
        push_text(&mut body, "\"}");
        json(200, body)
    } else {
        json(404, copy_text("{\"error\":\"not found\"}"))
    }
}

// ---------------------------------------------------------------------------
// Laws
// ---------------------------------------------------------------------------
/// Probes need no token, whatever is configured.
pub proof fn law_probes_need_no_token(
    path: Seq<char>,
    header: Option<Seq<char>>,
    token: Option<Seq<char>>,
    ready: bool,
    git_sha: Seq<char>,
)
    requires
        is_probe(path),
    ensures
        answer(path, header, token, ready, git_sha) == answer(path, None, None, ready, git_sha),
{
}

/// With a token configured, every request but a probe is refused unless it
/// presents just that token, and a refusal says nothing about the path.
pub proof fn law_protected_without_token_is_refused(
    path: Seq<char>,
    header: Option<Seq<char>>,
    token: Seq<char>,
    ready: bool,
    git_sha: Seq<char>,
)
    requires
        !is_probe(path),
        header != Some(SCHEME@ + token),
    ensures
        answer(path, header, Some(token), ready, git_sha) == (ReplyModel::Json {
            status: 401,
            body: "{\"error\":\"unauthorized\"}"@,
        }),
{
}

/// The relay is reported ready just when its pipeline runs.
pub proof fn law_readiness_follows_the_pipeline(
    header: Option<Seq<char>>,
    token: Option<Seq<char>>,
    ready: bool,
    git_sha: Seq<char>,
)
    ensures
        answer("/readyz"@, header, token, ready, git_sha) matches ReplyModel::Json { status, .. }
            && (status == 200 <==> ready) && (status == 503 <==> !ready),
{
    reveal_strlit("/readyz");
    reveal_strlit("/healthz");
    assert("/readyz"@.len() != "/healthz"@.len());
}

/// A configured token is presented by the word `Bearer`, one space and just the token.
/// Where none is configured, none is asked for.
pub proof fn law_bearer_presents_the_token(token: Seq<char>, header: Option<Seq<char>>)
    ensures
        is_allowed(Some(token), Some("Bearer "@ + token)),
        is_allowed(Some(token), header) ==> header == Some("Bearer "@ + token),
        is_allowed(None, header),
{
}

/// A request that may be answered is answered by its path; a path that is none of those
/// served is not found.
pub proof fn law_paths_are_told_apart(
    path: Seq<char>,
    header: Option<Seq<char>>,
    token: Option<Seq<char>>,
    ready: bool,
    git_sha: Seq<char>,
)
    requires
        token is Some ==> header == Some("Bearer "@ + token->0),
    ensures
        answer("/healthz"@, header, token, ready, git_sha) == (ReplyModel::Json {
            status: 200,
            body: "{\"status\":\"ok\"}"@,
        }),
        answer("/metrics"@, header, token, ready, git_sha) == ReplyModel::Metrics,
        answer("/version"@, header, token, ready, git_sha) == (ReplyModel::Json {
            status: 200,
            body: "{\"version\":\""@ + "0.4.0"@ + "\",\"git_sha\":\""@ + git_sha + "\"}"@,
        }),
        path != "/healthz"@ && path != "/readyz"@ && path != "/metrics"@ && path != "/version"@
            ==> answer(path, header, token, ready, git_sha) == (ReplyModel::Json {
            status: 404,
            body: "{\"error\":\"not found\"}"@,
        }),
{
    reveal_strlit("/healthz");
    reveal_strlit("/readyz");
    reveal_strlit("/metrics");
    reveal_strlit("/version");
    assert("/healthz"@[1] == 'h');
    assert("/readyz"@[1] == 'r');
    assert("/metrics"@[1] == 'm');
    assert("/version"@[1] == 'v');
}

} // verus!
