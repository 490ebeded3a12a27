//! One HTTP request, normalized for inspection, and the address it came from.
use vstd::prelude::*;
use vstd::utf8::*;

use crate::bytes;
use crate::bytes::{lossy_text, percent_decode, text_bytes};
use crate::ip;
use crate::ip::{parse_ip, IpAddr};
use crate::text;
use crate::text::{
    chars_of, contains_char, copy_text, find_char, same_ignoring_case, same_text, split_text,
    starts_with, text_between, to_lower, to_upper, trim_text,
};

verus! {

/// A name and a value, as text.
pub type Pair = (Seq<char>, Seq<char>);

/// The texts of a list of pairs.
pub open spec fn pairs(v: Seq<(String, String)>) -> Seq<Pair> {
    v.map_values(|p: (String, String)| (p.0@, p.1@))
}

/// The contents of a list of byte strings.
pub open spec fn byte_lists(v: Seq<Vec<u8>>) -> Seq<Seq<u8>> {
    v.map_values(|b: Vec<u8>| b@)
}

/// The contents of a list of byte slices.
pub open spec fn slices(v: Seq<&[u8]>) -> Seq<Seq<u8>> {
    v.map_values(|b: &[u8]| b@)
}

// ---------------------------------------------------------------------------
// Percent decoding
// ---------------------------------------------------------------------------
/// The number of decoding passes applied to one field.
pub const MAX_DECODE_PASSES: usize = 3;

/// The text after one pass of percent decoding.
pub open spec fn decoded_once(s: Seq<char>) -> Seq<char> {
    bytes::lossy(bytes::percent_decoded(encode_utf8(s)))
}

/// The text after at most `n` further passes, which end early at a text that
/// holds no `%` or that a pass does not change.
pub open spec fn decoded_further(s: Seq<char>, n: nat) -> Seq<char>
    decreases n,
{
    if n == 0 || !s.contains('%') || decoded_once(s) == s {
        s
    } else {
        decoded_further(decoded_once(s), (n - 1) as nat)
    }
}

/// The text percent-decoded to a fixed point, in a bounded number of passes.
pub open spec fn decoded(s: Seq<char>) -> Seq<char> {
    decoded_further(decoded_once(s), (MAX_DECODE_PASSES - 1) as nat)
}

pub(crate) fn decode_once(s: &str) -> (r: String)
    ensures
        r@ == decoded_once(s@),
{
    lossy_text(&percent_decode(s))
}

/// Percent-decodes to a fixed point, in a bounded number of passes, so that
/// payloads that were encoded several times are seen in the clear.
pub fn decode(s: &str) -> (r: String)
    ensures
        r@ == decoded(s@),
{
    let mut cur = decode_once(s);
    let mut left: usize = MAX_DECODE_PASSES - 1;
    let ghost target = decoded(s@);
    while left > 0
        invariant
            decoded_further(cur@, left as nat) == target,
        ensures
            cur@ == target,
        decreases left,
    {
        if !contains_char(&cur, '%') {
            break;
        }
        let next = decode_once(&cur);
        if same_text(&next, &cur) {
            break;
        }
        cur = next;
        left = left - 1;
    }
    cur
}

/// A text without a percent sign is not changed by decoding.
pub proof fn law_decode_keeps_plain_text(s: Seq<char>)
    requires
        !s.contains('%'),
    ensures
        decoded(s) == s,
{
    bytes::lemma_encoding_keeps_out(s, '%');
    bytes::law_percent_decoded_plain(encode_utf8(s));
    bytes::law_lossy_reads_text_back(s);
}

// ---------------------------------------------------------------------------
// Query parameters
// ---------------------------------------------------------------------------
/// The parameter that one piece of a query stands for.
pub open spec fn param(piece: Seq<char>) -> Pair {
    match text::first_index(piece, '=') {
        Some(i) => (decoded(piece.take(i)), decoded(piece.skip(i + 1))),
        None => (decoded(piece), Seq::empty()),
    }
}

/// The parameters of a list of pieces; empty pieces are skipped.
pub open spec fn params(pieces: Seq<Seq<char>>) -> Seq<Pair>
    decreases pieces.len(),
{
    if pieces.len() == 0 {
        Seq::empty()
    } else {
        let before = params(pieces.drop_last());
        if pieces.last().len() == 0 {
            before
        } else {
            before.push(param(pieces.last()))
        }
    }
}

/// The parameters of a query.
pub open spec fn query(raw: Seq<char>) -> Seq<Pair> {
    params(text::split(raw, '&'))
}

fn parse_param(piece: &str) -> (r: (String, String))
    ensures
        (r.0@, r.1@) == param(piece@),
{
    let c = chars_of(piece);
    match find_char(&c, '=') {
        Some(i) => {
            proof {
                text::lemma_first_index(piece@, '=');
            }
            let n: usize = c.len();
            let k = text_between(&c, 0, i);
            let v = text_between(&c, i + 1, n);
            assert(k@ == piece@.take(i as int));
            assert(v@ == piece@.skip(i + 1));
            (decode(&k), decode(&v))
        },
        None => (decode(piece), String::new()),
    }
}

/// Reads the parameters of a query, decoded.
pub fn parse_query(raw: &str) -> (r: Vec<(String, String)>)
    ensures
        pairs(r@) == query(raw@),
{
    let pieces = split_text(raw, '&');
    let ghost all = text::split(raw@, '&');
    let mut out: Vec<(String, String)> = Vec::new();
    let mut i: usize = 0;
    assert(pairs(out@) =~= params(all.take(0)));
    while i < pieces.len()
        invariant
            i <= pieces@.len(),
            all == text::texts(pieces@),
            pairs(out@) == params(all.take(i as int)),
        decreases pieces@.len() - i,
    {
        assert(all.take(i + 1).drop_last() == all.take(i as int));
        assert(all.take(i + 1).last() == pieces@[i as int]@);
        let ghost before = pairs(out@);
        if !pieces[i].as_str().is_empty() {
            let p = parse_param(&pieces[i]);
            out.push(p);
            assert(pairs(out@) =~= before.push((p.0@, p.1@)));
        }
        i = i + 1;
    }
    assert(all.take(all.len() as int) == all);
    out
}

// ---------------------------------------------------------------------------
// Headers
// ---------------------------------------------------------------------------
/// The number of bytes of all header names and values, as far as a `usize`
/// can count.
pub open spec fn header_size(headers: Seq<Pair>) -> nat
    decreases headers.len(),
{
    if headers.len() == 0 {
        0
    } else {
        let before = header_size(headers.drop_last());
        let sum = before + encode_utf8(headers.last().0).len() + encode_utf8(
            headers.last().1,
        ).len();
        if sum > usize::MAX {
            usize::MAX as nat
        } else {
            sum
        }
    }
}

/// The headers with their names in lower case.
pub open spec fn lower_names(headers: Seq<Pair>) -> Seq<Pair> {
    headers.map_values(|p: Pair| (text::lower(p.0), p.1))
}

/// The values of these headers are inspected: the ones that commonly carry what
/// a client controls, and every custom header.
pub open spec fn is_inspectable(name: Seq<char>) -> bool {
    ||| name == "cookie"@
    ||| name == "referer"@
    ||| name == "host"@
    ||| name == "authorization"@
    ||| name == "user-agent"@
    ||| text::has_prefix(name, "x-"@)
}

/// The inspected header values: each as it stands and, where that differs,
/// percent-decoded.
pub open spec fn inspectable_values(headers: Seq<Pair>) -> Seq<Seq<u8>>
    decreases headers.len(),
{
    if headers.len() == 0 {
        Seq::empty()
    } else {
        let before = inspectable_values(headers.drop_last());
        let value = headers.last().1;
        if !is_inspectable(headers.last().0) {
            before
        } else if decoded(value) == value {
            before.push(encode_utf8(value))
        } else {
            before.push(encode_utf8(value)).push(encode_utf8(decoded(value)))
        }
    }
}

fn inspectable_name(name: &str) -> (r: bool)
    ensures
        r == is_inspectable(name@),
{
    same_text(name, "cookie") || same_text(name, "referer") || same_text(name, "host") || same_text(
        name,
        "authorization",
    ) || same_text(name, "user-agent") || starts_with(name, "x-")
}

/// The inspected header values, both as they stand and decoded. The names are
/// in lower case.
pub fn build_inspectable_headers(headers: &[(String, String)]) -> (r: Vec<Vec<u8>>)
    ensures
        byte_lists(r@) == inspectable_values(pairs(headers@)),
{
    let ghost all = pairs(headers@);
    let mut out: Vec<Vec<u8>> = Vec::new();
    let mut i: usize = 0;
    assert(byte_lists(out@) =~= inspectable_values(all.take(0)));
    while i < headers.len()
        invariant
            i <= headers@.len(),
            all == pairs(headers@),
            byte_lists(out@) == inspectable_values(all.take(i as int)),
        decreases headers@.len() - i,
    {
        assert(all.take(i + 1).drop_last() == all.take(i as int));
        assert(all.take(i + 1).last() == (headers@[i as int].0@, headers@[i as int].1@));
        let ghost before = byte_lists(out@);
        if inspectable_name(&headers[i].0) {
            let value = &headers[i].1;
            let raw = text_bytes(value);
            let ghost raw_view = raw@;
            out.push(raw);
            assert(byte_lists(out@) =~= before.push(raw_view));
            let clear = decode(value);
            if !same_text(&clear, value) {
                let ghost middle = byte_lists(out@);
                let clear_bytes = text_bytes(&clear);
                let ghost clear_view = clear_bytes@;
                out.push(clear_bytes);
                assert(byte_lists(out@) =~= middle.push(clear_view));
            }
        }
        i = i + 1;
    }
    assert(all.take(all.len() as int) == all);
    out
}

// ---------------------------------------------------------------------------
// The request
// ---------------------------------------------------------------------------
/// What the SQL and HTML tokenizers said of a request: one answer for each of
/// its inspectable fields, and one for each suffix of its user agent that is
/// probed. A missing answer counts as no finding.
#[derive(Debug)]
pub struct Findings {
    /// The field tokenizes as SQL injection.
    pub sqli: Vec<bool>,
    /// The field tokenizes as cross-site scripting.
    pub xss: Vec<bool>,
    /// The user-agent suffix tokenizes as SQL injection.
    pub suffix_sqli: Vec<bool>,
}

/// A normalized, decoded view of one request. Detectors read only this.
#[derive(Debug)]
pub struct Request {
    /// The method, in upper case.
    pub method: String,
    /// The host, in lower case.
    pub host: String,
    /// The path, percent-decoded.
    pub path: String,
    /// The query as it was received, if there is one.
    pub raw_query: Option<String>,
    /// The query parameters, decoded.
    pub query_params: Vec<(String, String)>,
    /// The headers, with names in lower case.
    pub headers: Vec<(String, String)>,
    /// The size of all header names and values.
    pub header_bytes: usize,
    /// The body, as it was received.
    pub body: Vec<u8>,
    /// Whether the body was read and is to be inspected.
    pub body_inspected: bool,
    /// Whether only a prefix of the body is here.
    pub body_truncated: bool,
    /// The address the request came from.
    pub source_ip: IpAddr,
    /// The inspected header values, raw and decoded.
    pub inspectable_headers: Vec<Vec<u8>>,
    /// What the tokenizers said of the fields.
    pub findings: Findings,
}

/// What a request holds.
#[verifier::ext_equal]
pub struct RequestModel {
    pub method: Seq<char>,
    pub host: Seq<char>,
    pub path: Seq<char>,
    pub raw_query: Option<Seq<char>>,
    pub query_params: Seq<Pair>,
    pub headers: Seq<Pair>,
    pub header_bytes: nat,
    pub body: Seq<u8>,
    pub body_inspected: bool,
    pub body_truncated: bool,
    pub source_ip: IpAddr,
    pub inspectable_headers: Seq<Seq<u8>>,
    pub sqli: Seq<bool>,
    pub xss: Seq<bool>,
    pub suffix_sqli: Seq<bool>,
}

impl View for Request {
    type V = RequestModel;

    open spec fn view(&self) -> RequestModel {
        RequestModel {
            method: self.method@,
            host: self.host@,
            path: self.path@,
            raw_query: match self.raw_query {
                Some(q) => Some(q@),
                None => None,
            },
            query_params: pairs(self.query_params@),
            headers: pairs(self.headers@),
            header_bytes: self.header_bytes as nat,
            body: self.body@,
            body_inspected: self.body_inspected,
            body_truncated: self.body_truncated,
            source_ip: self.source_ip,
            inspectable_headers: byte_lists(self.inspectable_headers@),
            sqli: self.findings.sqli@,
            xss: self.findings.xss@,
            suffix_sqli: self.findings.suffix_sqli@,
        }
    }
}

/// The request that a method, host, path, query, headers and body make.
pub open spec fn normalized(
    method: Seq<char>,
    host: Seq<char>,
    path: Seq<char>,
    raw_query: Seq<char>,
    headers: Seq<Pair>,
    body: Seq<u8>,
    body_inspected: bool,
    source_ip: IpAddr,
) -> RequestModel {
    RequestModel {
        method: text::upper(method),
        host: text::lower(host),
        path: decoded(path),
        raw_query: if raw_query.len() == 0 {
            None
        } else {
            Some(raw_query)
        },
        query_params: query(raw_query),
        headers: lower_names(headers),
        header_bytes: header_size(headers),
        body,
        body_inspected,
        body_truncated: false,
        source_ip,
        inspectable_headers: inspectable_values(lower_names(headers)),
        sqli: Seq::empty(),
        xss: Seq::empty(),
        suffix_sqli: Seq::empty(),
    }
}

/// The fields that detectors scan, in order: the path, the query values, the
/// body where it is inspected, and the inspected header values.
pub open spec fn fields(r: RequestModel) -> Seq<Seq<u8>> {
    let front = seq![encode_utf8(r.path)] + param_values(r.query_params);
    let middle = if r.body_inspected {
        front.push(r.body)
    } else {
        front
    };
    middle + r.inspectable_headers
}

/// The bytes of the values of some parameters.
pub open spec fn param_values(ps: Seq<Pair>) -> Seq<Seq<u8>> {
    ps.map_values(|p: Pair| encode_utf8(p.1))
}

/// The value of the first header of that name, whatever the case.
pub open spec fn header_value(headers: Seq<Pair>, name: Seq<char>) -> Option<Seq<char>>
    decreases headers.len(),
{
    if headers.len() == 0 {
        None
    } else if text::lower(headers[0].0) == text::lower(name) {
        Some(headers[0].1)
    } else {
        header_value(headers.skip(1), name)
    }
}

/// An optional text, by its characters.
pub open spec fn opt_text(o: Option<&str>) -> Option<Seq<char>> {
    match o {
        Some(s) => Some(s@),
        None => None,
    }
}

impl Request {
    /// Builds the normalized view of a request. `raw_query` is what follows the
    /// question mark, or empty.
    #[allow(clippy::too_many_arguments)]
    pub fn build(
        method: &str,
        host: &str,
        path: &str,
        raw_query: &str,
        headers: Vec<(String, String)>,
        body: Vec<u8>,
        body_inspected: bool,
        source_ip: IpAddr,
    ) -> (r: Request)
        ensures
            r@ == normalized(
                method@,
                host@,
                path@,
                raw_query@,
                pairs(headers@),
                body@,
                body_inspected,
                source_ip,
            ),
    {
        let ghost all = pairs(headers@);
        let query_params = parse_query(raw_query);
        let mut header_bytes: usize = 0;
        let mut lowered: Vec<(String, String)> = Vec::new();
        assert(pairs(lowered@) =~= lower_names(all.take(0)));
        for (k, v) in it: headers
            invariant
                it.seq() == headers@,
                all == pairs(headers@),
                header_bytes == header_size(all.take(it.index() as int)),
                pairs(lowered@) == lower_names(all.take(it.index() as int)),
        {
            let ghost n = it.index() as int;
            assert(all.take(n + 1).drop_last() == all.take(n));
            assert(all.take(n + 1).last() == (k@, v@));
            let ghost before = pairs(lowered@);
            header_bytes =
            header_bytes.saturating_add(k.as_str().as_bytes().len()).saturating_add(v.as_str().as_bytes().len());
            let name = to_lower(&k);
            lowered.push((name, v));
            assert(pairs(lowered@) =~= before.push((text::lower(k@), v@)));
            assert(lower_names(all.take(n + 1)) =~= lower_names(all.take(n)).push(
                (text::lower(k@), v@),
            ));
        }
        assert(all.take(all.len() as int) == all);
        let inspectable_headers = build_inspectable_headers(&lowered);
        let raw = if raw_query.is_empty() {
            None
        } else {
            Some(copy_text(raw_query))
        };
        let r = Request {
            method: to_upper(method),
            host: to_lower(host),
            path: decode(path),
            raw_query: raw,
            query_params,
            headers: lowered,
            header_bytes,
            body,
            body_inspected,
            body_truncated: false,
            source_ip,
            inspectable_headers,
            findings: Findings { sqli: Vec::new(), xss: Vec::new(), suffix_sqli: Vec::new() },
        };
        r
    }

    /// Marks whether only a prefix of the body is here.
    pub fn with_truncated_body(self, truncated: bool) -> (r: Request)
        ensures
            r@ == (RequestModel { body_truncated: truncated, ..self@ }),
    {
        let mut r = self;
        r.body_truncated = truncated;
        r
    }

    /// Attaches what the tokenizers said of the fields.
    pub fn with_findings(self, findings: Findings) -> (r: Request)
        ensures
            r@ == (RequestModel {
                sqli: findings.sqli@,
                xss: findings.xss@,
                suffix_sqli: findings.suffix_sqli@,
                ..self@
            }),
    {
        let mut r = self;
        r.findings = findings;
        r
    }

    /// The body as it was received.
    pub fn body_bytes(&self) -> (r: &[u8])
        ensures
            r@ == self@.body,
    {
        self.body.as_slice()
    }

    /// The body as text, with ill-formed parts replaced.
    pub fn body_text_lossy(&self) -> (r: String)
        ensures
            r@ == bytes::lossy(self@.body),
    {
        lossy_text(&self.body)
    }

    /// The query as it was received, if there is one.
    pub fn raw_query(&self) -> (r: Option<&str>)
        ensures
            opt_text(r) == self@.raw_query,
    {
        match &self.raw_query {
            Some(q) => Some(q.as_str()),
            None => None,
        }
    }

    /// Every field a detector scans, as bytes.
    pub fn inspectable_fields(&self) -> (r: Vec<&[u8]>)
        ensures
            slices(r@) == fields(self@),
    {
        let mut out: Vec<&[u8]> = Vec::new();
        out.push(self.path.as_str().as_bytes());
        let ghost values = param_values(pairs(self.query_params@));
        let ghost path = encode_utf8(self.path@);
        let mut i: usize = 0;
        assert(slices(out@) =~= seq![path] + values.take(0));
        while i < self.query_params.len()
            invariant
                i <= self.query_params@.len(),
                values == param_values(pairs(self.query_params@)),
                slices(out@) == seq![path] + values.take(i as int),
            decreases self.query_params@.len() - i,
        {
            let ghost before = slices(out@);
            let value = self.query_params[i].1.as_str().as_bytes();
            out.push(value);
            assert(slices(out@) =~= before.push(value@));
            assert(values.take(i + 1) =~= values.take(i as int).push(value@));
            assert(slices(out@) =~= seq![path] + values.take(i + 1));
            i = i + 1;
        }
        assert(values.take(values.len() as int) == values);
        if self.body_inspected {
            let ghost before = slices(out@);
            let body = self.body.as_slice();
            out.push(body);
            assert(slices(out@) =~= before.push(body@));
        }
        let ghost middle = slices(out@);
        let ghost rest = byte_lists(self.inspectable_headers@);
        i = 0;
        assert(middle =~= middle + rest.take(0));
        while i < self.inspectable_headers.len()
            invariant
                i <= self.inspectable_headers@.len(),
                rest == byte_lists(self.inspectable_headers@),
                slices(out@) == middle + rest.take(i as int),
            decreases self.inspectable_headers@.len() - i,
        {
            let ghost before = slices(out@);
            let value = self.inspectable_headers[i].as_slice();
            out.push(value);
            assert(slices(out@) =~= before.push(value@));
            assert(rest.take(i + 1) =~= rest.take(i as int).push(value@));
            assert(slices(out@) =~= middle + rest.take(i + 1));
            i = i + 1;
        }
        assert(rest.take(rest.len() as int) == rest);
        out
    }

    /// The inspected header values.
    pub fn inspectable_header_values(&self) -> (r: &[Vec<u8>])
        ensures
            byte_lists(r@) == self@.inspectable_headers,
    {
        self.inspectable_headers.as_slice()
    }

    /// The value of a header; the case of the name does not matter.
    pub fn header(&self, name: &str) -> (r: Option<&str>)
        ensures
            opt_text(r) == header_value(self@.headers, name@),
    {
        let ghost all = pairs(self.headers@);
        let mut i: usize = 0;
        assert(all.skip(0) == all);
        while i < self.headers.len()
            invariant
                i <= self.headers@.len(),
                all == pairs(self.headers@),
                header_value(all, name@) == header_value(all.skip(i as int), name@),
            decreases self.headers@.len() - i,
        {
            assert(all.skip(i as int)[0] == (self.headers@[i as int].0@, self.headers@[i as int].1@));
            if same_ignoring_case(&self.headers[i].0, name) {
                return Some(self.headers[i].1.as_str());
            }
            assert(all.skip(i as int).skip(1) == all.skip(i + 1));
            i = i + 1;
        }
        None
    }

    /// The user agent, if there is one.
    pub fn user_agent(&self) -> (r: Option<&str>)
        ensures
            opt_text(r) == header_value(self@.headers, "user-agent"@),
    {
        self.header("user-agent")
    }
}

/// A parameter that is already decoded is read as it stands.
pub proof fn law_plain_parameter_is_kept(name: Seq<char>, value: Seq<char>)
    requires
        !name.contains('%') && !name.contains('&') && !name.contains('='),
        !value.contains('%') && !value.contains('&'),
    ensures
        query(name + seq!['='] + value) == seq![(name, value)],
{
    let raw = name + seq!['='] + value;
    assert(!raw.contains('&')) by {
        if raw.contains('&') {
            let i = choose|i: int| 0 <= i < raw.len() && raw[i] == '&';
            if i < name.len() {
                assert(name[i] == '&');
            } else if i > name.len() {
                assert(value[i - name.len() - 1] == '&');
            }
        }
    }
    text::lemma_split_without(raw, '&');
    let pieces = text::split(raw, '&');
    assert(pieces =~= seq![raw]);
    text::lemma_first_index(raw, '=');
    let at = name.len() as int;
    assert(raw[at] == '=');
    assert(forall|k: int| 0 <= k < at ==> raw[k] == name[k]);
    assert(text::first_index(raw, '=') == Some(at)) by {
        match text::first_index(raw, '=') {
            Some(i) => {
                if i < at {
                    assert(name[i] == '=');
                }
            },
            None => {},
        }
    }
    assert(raw.take(at) =~= name);
    assert(raw.skip(at + 1) =~= value);
    law_decode_keeps_plain_text(name);
    law_decode_keeps_plain_text(value);
    reveal_with_fuel(params, 2);
    assert(pieces.drop_last() =~= Seq::empty());
    assert(query(raw) =~= seq![(name, value)]);
}

// ---------------------------------------------------------------------------
// The client's address
// ---------------------------------------------------------------------------
/// The first of some texts that is an address, white space aside.
pub open spec fn first_address(parts: Seq<Seq<char>>) -> Option<IpAddr>
    decreases parts.len(),
{
    if parts.len() == 0 {
        None
    } else {
        match ip::ip_of(text::trim(parts[0])) {
            Some(a) => Some(a),
            None => first_address(parts.skip(1)),
        }
    }
}

/// The address a forwarding chain asserts, once the trusted hops at its right
/// end are peeled off.
pub open spec fn chain_address(chain: Seq<char>, trust_hops: nat) -> Option<IpAddr> {
    let parts = text::split(chain, ',');
    if parts.len() > trust_hops {
        first_address(parts.take(parts.len() - trust_hops))
    } else {
        None
    }
}

/// The address the forwarding headers assert.
pub open spec fn forwarded_for(headers: Seq<Pair>, trust_hops: nat) -> Option<IpAddr>
    decreases headers.len(),
{
    if headers.len() == 0 {
        None
    } else if text::lower(headers[0].0) == text::lower("x-forwarded-for"@) && chain_address(
        headers[0].1,
        trust_hops,
    ) is Some {
        chain_address(headers[0].1, trust_hops)
    } else {
        forwarded_for(headers.skip(1), trust_hops)
    }
}

/// The address the real-address headers assert.
pub open spec fn real_address(headers: Seq<Pair>) -> Option<IpAddr>
    decreases headers.len(),
{
    if headers.len() == 0 {
        None
    } else if text::lower(headers[0].0) == text::lower("x-real-ip"@) && ip::ip_of(
        text::trim(headers[0].1),
    ) is Some {
        ip::ip_of(text::trim(headers[0].1))
    } else {
        real_address(headers.skip(1))
    }
}

/// The client's address: what the trusted proxies say, else the peer.
pub open spec fn client_address(headers: Seq<Pair>, peer: IpAddr, trust_hops: nat) -> IpAddr {
    if trust_hops == 0 {
        peer
    } else {
        match forwarded_for(headers, trust_hops) {
            Some(a) => a,
            None => match real_address(headers) {
                Some(a) => a,
                None => peer,
            },
        }
    }
}

pub(crate) fn find_chain_address(chain: &str, trust_hops: usize) -> (r: Option<IpAddr>)
    ensures
        r == chain_address(chain@, trust_hops as nat),
{
    let parts = split_text(chain, ',');
    let ghost all = text::split(chain@, ',');
    let n: usize = parts.len();
    if n <= trust_hops {
        return None;
    }
    let cut: usize = n - trust_hops;
    let ghost kept = all.take(cut as int);
    let mut i: usize = 0;
    assert(kept.skip(0) == kept);
    while i < cut
        invariant
            i <= cut <= parts@.len(),
            all == text::texts(parts@),
            kept == all.take(cut as int),
            chain_address(chain@, trust_hops as nat) == first_address(kept),
            first_address(kept) == first_address(kept.skip(i as int)),
        decreases cut - i,
    {
        assert(kept.skip(i as int)[0] == parts@[i as int]@);
        match parse_ip(&trim_text(&parts[i])) {
            Some(a) => {
                return Some(a);
            },
            None => {},
        }
        assert(kept.skip(i as int).skip(1) == kept.skip(i + 1));
        i = i + 1;
    }
    None
}

/// Derives the client's address from the proxy headers.
///
/// The rightmost `trust_hops` entries of `X-Forwarded-For` were written by
/// trusted proxies and are peeled off; of the others, the leftmost that is an
/// address wins. `X-Real-IP` comes next, then the peer. With no trusted hop the
/// headers are not read at all.
pub fn client_ip(headers: &[(String, String)], peer: IpAddr, trust_hops: usize) -> (r: IpAddr)
    ensures
        r == client_address(pairs(headers@), peer, trust_hops as nat),
{
    if trust_hops == 0 {
        return peer;
    }
    let ghost all = pairs(headers@);
    let hops = trust_hops;
    let mut i: usize = 0;
    assert(all.skip(0) == all);
    while i < headers.len()
        invariant
            i <= headers@.len(),
            all == pairs(headers@),
            hops == trust_hops > 0,
            forwarded_for(all, hops as nat) == forwarded_for(all.skip(i as int), hops as nat),
        decreases headers@.len() - i,
    {
        assert(all.skip(i as int)[0] == (headers@[i as int].0@, headers@[i as int].1@));
        if same_ignoring_case(&headers[i].0, "x-forwarded-for") {
            match find_chain_address(&headers[i].1, hops) {
                Some(a) => {
                    return a;
                },
                None => {},
            }
        }
        assert(all.skip(i as int).skip(1) == all.skip(i + 1));
        i = i + 1;
    }
    assert(forwarded_for(all, hops as nat) is None);
    i = 0;
    while i < headers.len()
        invariant
            i <= headers@.len(),
            all == pairs(headers@),
            hops == trust_hops > 0,
            forwarded_for(all, hops as nat) is None,
            real_address(all) == real_address(all.skip(i as int)),
        decreases headers@.len() - i,
    {
        assert(all.skip(i as int)[0] == (headers@[i as int].0@, headers@[i as int].1@));
        if same_ignoring_case(&headers[i].0, "x-real-ip") {
            match parse_ip(&trim_text(&headers[i].1)) {
                Some(a) => {
                    return a;
                },
                None => {},
            }
        }
        assert(all.skip(i as int).skip(1) == all.skip(i + 1));
        i = i + 1;
    }
    peer
}

/// Without a trusted hop no header has a say: the address is the peer's.
pub proof fn law_no_trust_means_peer(headers: Seq<Pair>, peer: IpAddr)
    ensures
        client_address(headers, peer, 0) == peer,
{
}

/// Where the first entry of the first forwarding chain is an address that the
/// peeling leaves, it is the client's address.
pub proof fn law_leftmost_untrusted_entry_wins(
    chain: Seq<char>,
    rest: Seq<Pair>,
    peer: IpAddr,
    trust_hops: nat,
    client: IpAddr,
)
    requires
        0 < trust_hops < text::split(chain, ',').len(),
        ip::ip_of(text::trim(text::split(chain, ',')[0])) == Some(client),
    ensures
        client_address(seq![("x-forwarded-for"@, chain)] + rest, peer, trust_hops) == client,
{
    let headers = seq![("x-forwarded-for"@, chain)] + rest;
    let parts = text::split(chain, ',');
    let kept = parts.take(parts.len() - trust_hops);
    assert(headers[0] == ("x-forwarded-for"@, chain));
    assert(kept[0] == parts[0]);
    assert(first_address(kept) == Some(client));
}

/// Where the trusted hops cover every chain, the forwarding headers have no say.
pub proof fn law_exhausted_chain_is_ignored(headers: Seq<Pair>, trust_hops: nat)
    requires
        forall|i: int|
            0 <= i < headers.len() ==> text::split((#[trigger] headers[i]).1, ',').len()
                <= trust_hops,
    ensures
        forwarded_for(headers, trust_hops) is None,
    decreases headers.len(),
{
    if headers.len() > 0 {
        assert(text::split(headers[0].1, ',').len() <= trust_hops);
        assert forall|i: int| 0 <= i < headers.skip(1).len() implies text::split(
            (#[trigger] headers.skip(1)[i]).1,
            ',',
        ).len() <= trust_hops by {
            assert(headers.skip(1)[i] == headers[i + 1]);
        }
        law_exhausted_chain_is_ignored(headers.skip(1), trust_hops);
    }
}

/// Of the real-address headers, wherever they stand and however their names are
/// written, the first that holds an address tells the client's, where no forwarding
/// chain does.
pub proof fn law_real_address_header_is_found_anywhere(
    headers: Seq<Pair>,
    peer: IpAddr,
    trust_hops: nat,
    i: int,
    client: IpAddr,
)
    requires
        trust_hops > 0,
        forall|j: int|
            0 <= j < headers.len() && text::lower((#[trigger] headers[j]).0) == "x-forwarded-for"@
                ==> chain_address(headers[j].1, trust_hops) is None,
        0 <= i < headers.len(),
        text::lower(headers[i].0) == "x-real-ip"@,
        ip::ip_of(text::trim(headers[i].1)) == Some(client),
        forall|j: int|
            0 <= j < i && text::lower((#[trigger] headers[j]).0) == "x-real-ip"@ ==> ip::ip_of(
                text::trim(headers[j].1),
            ) is None,
    ensures
        client_address(headers, peer, trust_hops) == client,
{
    lemma_header_names();
    lemma_no_chain(headers, trust_hops);
    lemma_real_address_at(headers, i, client);
}

/// Of the forwarding headers, wherever they stand and however their names are written,
/// the first whose chain gives an address tells the client's.
pub proof fn law_forwarding_header_is_found_anywhere(
    headers: Seq<Pair>,
    peer: IpAddr,
    trust_hops: nat,
    i: int,
    client: IpAddr,
)
    requires
        trust_hops > 0,
        0 <= i < headers.len(),
        text::lower(headers[i].0) == "x-forwarded-for"@,
        chain_address(headers[i].1, trust_hops) == Some(client),
        forall|j: int|
            0 <= j < i && text::lower((#[trigger] headers[j]).0) == "x-forwarded-for"@
                ==> chain_address(headers[j].1, trust_hops) is None,
    ensures
        client_address(headers, peer, trust_hops) == client,
{
    lemma_header_names();
    lemma_chain_at(headers, trust_hops, i, client);
}

/// Where neither a forwarding chain nor a real-address header gives an address, the
/// client's is the peer's.
pub proof fn law_silent_headers_mean_peer(headers: Seq<Pair>, peer: IpAddr, trust_hops: nat)
    requires
        forall|j: int|
            0 <= j < headers.len() && text::lower((#[trigger] headers[j]).0) == "x-forwarded-for"@
                ==> chain_address(headers[j].1, trust_hops) is None,
        forall|j: int|
            0 <= j < headers.len() && text::lower((#[trigger] headers[j]).0) == "x-real-ip"@
                ==> ip::ip_of(text::trim(headers[j].1)) is None,
    ensures
        client_address(headers, peer, trust_hops) == peer,
{
    lemma_header_names();
    lemma_no_chain(headers, trust_hops);
    lemma_no_real_address(headers);
}

/// A chain gives the leftmost of its entries that is an address, of those that are
/// left when the trusted ones at its right end are peeled off.
pub proof fn law_chain_gives_its_leftmost_address(
    chain: Seq<char>,
    trust_hops: nat,
    i: int,
    client: IpAddr,
)
    requires
        0 <= i < text::split(chain, ',').len() - trust_hops,
        ip::ip_of(text::trim(text::split(chain, ',')[i])) == Some(client),
        forall|j: int|
            0 <= j < i ==> ip::ip_of(text::trim(#[trigger] text::split(chain, ',')[j])) is None,
    ensures
        chain_address(chain, trust_hops) == Some(client),
{
    let parts = text::split(chain, ',');
    let kept = parts.take(parts.len() - trust_hops);
    assert(kept[i] == parts[i]);
    assert forall|j: int| 0 <= j < i implies ip::ip_of(
        text::trim(#[trigger] kept[j]),
    ) is None by {
        assert(kept[j] == parts[j]);
    }
    lemma_first_address_at(kept, i, client);
}

/// A chain of which no entry is an address, or only ones that are peeled off, gives
/// none.
pub proof fn law_chain_without_address_gives_none(chain: Seq<char>, trust_hops: nat)
    requires
        forall|j: int|
            0 <= j < text::split(chain, ',').len() - trust_hops ==> ip::ip_of(
                text::trim(#[trigger] text::split(chain, ',')[j]),
            ) is None,
    ensures
        chain_address(chain, trust_hops) is None,
{
    let parts = text::split(chain, ',');
    if parts.len() > trust_hops {
        let kept = parts.take(parts.len() - trust_hops);
        assert forall|j: int| 0 <= j < kept.len() implies ip::ip_of(
            text::trim(#[trigger] kept[j]),
        ) is None by {
            assert(kept[j] == parts[j]);
        }
        lemma_no_first_address(kept);
    }
}

proof fn lemma_header_names()
    ensures
        text::lower("x-real-ip"@) == "x-real-ip"@,
        text::lower("x-forwarded-for"@) == "x-forwarded-for"@,
{
    reveal_strlit("x-real-ip");
    reveal_strlit("x-forwarded-for");
    assert(text::lower("x-real-ip"@) =~= "x-real-ip"@);
    assert(text::lower("x-forwarded-for"@) =~= "x-forwarded-for"@);
}

proof fn lemma_no_chain(headers: Seq<Pair>, trust_hops: nat)
    requires
        forall|j: int|
            0 <= j < headers.len() && text::lower((#[trigger] headers[j]).0) == "x-forwarded-for"@
                ==> chain_address(headers[j].1, trust_hops) is None,
    ensures
        forwarded_for(headers, trust_hops) is None,
    decreases headers.len(),
{
    if headers.len() > 0 {
        lemma_header_names();
        let rest = headers.skip(1);
        assert(headers[0] == headers[0]);
        assert forall|j: int|
            0 <= j < rest.len() && text::lower((#[trigger] rest[j]).0)
                == "x-forwarded-for"@ implies chain_address(rest[j].1, trust_hops) is None by {
            assert(rest[j] == headers[j + 1]);
        }
        lemma_no_chain(rest, trust_hops);
    }
}

proof fn lemma_chain_at(headers: Seq<Pair>, trust_hops: nat, i: int, client: IpAddr)
    requires
        0 <= i < headers.len(),
        text::lower(headers[i].0) == "x-forwarded-for"@,
        chain_address(headers[i].1, trust_hops) == Some(client),
        forall|j: int|
            0 <= j < i && text::lower((#[trigger] headers[j]).0) == "x-forwarded-for"@
                ==> chain_address(headers[j].1, trust_hops) is None,
    ensures
        forwarded_for(headers, trust_hops) == Some(client),
    decreases i,
{
    lemma_header_names();
    if i > 0 {
        let rest = headers.skip(1);
        assert(headers[0] == headers[0]);
        assert(rest[i - 1] == headers[i]);
        assert forall|j: int|
            0 <= j < i - 1 && text::lower((#[trigger] rest[j]).0)
                == "x-forwarded-for"@ implies chain_address(rest[j].1, trust_hops) is None by {
            assert(rest[j] == headers[j + 1]);
        }
        lemma_chain_at(rest, trust_hops, i - 1, client);
    }
}

proof fn lemma_no_real_address(headers: Seq<Pair>)
    requires
        forall|j: int|
            0 <= j < headers.len() && text::lower((#[trigger] headers[j]).0) == "x-real-ip"@
                ==> ip::ip_of(text::trim(headers[j].1)) is None,
    ensures
        real_address(headers) is None,
    decreases headers.len(),
{
    if headers.len() > 0 {
        lemma_header_names();
        let rest = headers.skip(1);
        assert(headers[0] == headers[0]);
        assert forall|j: int|
            0 <= j < rest.len() && text::lower((#[trigger] rest[j]).0)
                == "x-real-ip"@ implies ip::ip_of(text::trim(rest[j].1)) is None by {
            assert(rest[j] == headers[j + 1]);
        }
        lemma_no_real_address(rest);
    }
}

proof fn lemma_real_address_at(headers: Seq<Pair>, i: int, client: IpAddr)
    requires
        0 <= i < headers.len(),
        text::lower(headers[i].0) == "x-real-ip"@,
        ip::ip_of(text::trim(headers[i].1)) == Some(client),
        forall|j: int|
            0 <= j < i && text::lower((#[trigger] headers[j]).0) == "x-real-ip"@ ==> ip::ip_of(
                text::trim(headers[j].1),
            ) is None,
    ensures
        real_address(headers) == Some(client),
    decreases i,
{
    lemma_header_names();
    if i > 0 {
        let rest = headers.skip(1);
        assert(headers[0] == headers[0]);
        assert(rest[i - 1] == headers[i]);
        assert forall|j: int|
            0 <= j < i - 1 && text::lower((#[trigger] rest[j]).0)
                == "x-real-ip"@ implies ip::ip_of(text::trim(rest[j].1)) is None by {
            assert(rest[j] == headers[j + 1]);
        }
        lemma_real_address_at(rest, i - 1, client);
    }
}

proof fn lemma_first_address_at(parts: Seq<Seq<char>>, i: int, client: IpAddr)
    requires
        0 <= i < parts.len(),
        ip::ip_of(text::trim(parts[i])) == Some(client),
        forall|j: int| 0 <= j < i ==> ip::ip_of(text::trim(#[trigger] parts[j])) is None,
    ensures
        first_address(parts) == Some(client),
    decreases i,
{
    if i > 0 {
        assert(ip::ip_of(text::trim(parts[0])) is None);
        let rest = parts.skip(1);
        assert(rest[i - 1] == parts[i]);
        assert forall|j: int| 0 <= j < i - 1 implies ip::ip_of(
            text::trim(#[trigger] rest[j]),
        ) is None by {
            assert(rest[j] == parts[j + 1]);
        }
        lemma_first_address_at(rest, i - 1, client);
    }
}

proof fn lemma_no_first_address(parts: Seq<Seq<char>>)
    requires
        forall|j: int|
            0 <= j < parts.len() ==> ip::ip_of(text::trim(#[trigger] parts[j])) is None,
    ensures
        first_address(parts) is None,
    decreases parts.len(),
{
    if parts.len() > 0 {
        assert(ip::ip_of(text::trim(parts[0])) is None);
        let rest = parts.skip(1);
        assert forall|j: int| 0 <= j < rest.len() implies ip::ip_of(
            text::trim(#[trigger] rest[j]),
        ) is None by {
            assert(rest[j] == parts[j + 1]);
        }
        lemma_no_first_address(rest);
    }
}

// ---------------------------------------------------------------------------
// Laws of normalization
// ---------------------------------------------------------------------------
/// Decoding is three passes over the text, each over what the one before it left: a
/// payload that was encoded up to three times comes out in the clear.
pub proof fn law_decoding_is_three_passes(s: Seq<char>)
    ensures
        decoded(s) == decoded_once(decoded_once(decoded_once(s))),
{
    reveal_with_fuel(decoded_further, 3);
    let a = decoded_once(s);
    let b = decoded_once(a);
    lemma_plain_pass(a);
    lemma_plain_pass(b);
}

proof fn lemma_plain_pass(s: Seq<char>)
    ensures
        !s.contains('%') ==> decoded_once(s) == s,
{
    if !s.contains('%') {
        bytes::lemma_encoding_keeps_out(s, '%');
        bytes::law_percent_decoded_plain(encode_utf8(s));
        bytes::law_lossy_reads_text_back(s);
    }
}

/// The parameters of a query are those of its parts, in order: none is dropped, and
/// none depends on the others.
pub proof fn law_query_parts_are_independent(a: Seq<char>, b: Seq<char>)
    ensures
        query(a + seq!['&'] + b) == query(a) + query(b),
{
    text::law_separator_parts_the_pieces(a, '&', b);
    lemma_params_join(text::split(a, '&'), text::split(b, '&'));
}

proof fn lemma_params_join(a: Seq<Seq<char>>, b: Seq<Seq<char>>)
    ensures
        params(a + b) == params(a) + params(b),
    decreases b.len(),
{
    if b.len() == 0 {
        assert(a + b =~= a);
        assert(params(a) + params(b) =~= params(a));
    } else {
        assert((a + b).drop_last() =~= a + b.drop_last());
        assert((a + b).last() == b.last());
        lemma_params_join(a, b.drop_last());
        assert(params(a + b) =~= params(a) + params(b));
    }
}

/// A part of a query is one parameter: what stands before its first `=` and what
/// stands behind it, both decoded; without a `=` the value is empty. An empty part is
/// none.
pub proof fn law_part_of_a_query_is_a_parameter(name: Seq<char>, value: Seq<char>)
    requires
        !name.contains('&') && !name.contains('='),
        !value.contains('&'),
    ensures
        query(name + seq!['='] + value) == seq![(decoded(name), decoded(value))],
        name.len() > 0 ==> query(name) == seq![(decoded(name), Seq::<char>::empty())],
        query(Seq::<char>::empty()) == Seq::<Pair>::empty(),
{
    reveal_with_fuel(params, 2);
    let raw = name + seq!['='] + value;
    let at = name.len() as int;
    assert(!raw.contains('&')) by {
        if raw.contains('&') {
            let i = choose|i: int| 0 <= i < raw.len() && raw[i] == '&';
            if i < at {
                assert(name[i] == '&');
            } else if i > at {
                assert(value[i - at - 1] == '&');
            }
        }
    }
    text::lemma_split_without(raw, '&');
    text::lemma_split_without(name, '&');
    text::lemma_split_without(Seq::<char>::empty(), '&');
    text::lemma_first_index(raw, '=');
    text::lemma_first_index(name, '=');
    assert(raw[at] == '=');
    assert(forall|k: int| 0 <= k < at ==> raw[k] == name[k]);
    match text::first_index(raw, '=') {
        Some(i) => {
            if i < at {
                assert(name[i] == '=');
            }
        },
        None => {},
    }
    match text::first_index(name, '=') {
        Some(i) => {
            assert(name[i] == '=');
        },
        None => {},
    }
    assert(raw.take(at) =~= name);
    assert(raw.skip(at + 1) =~= value);
    assert(seq![raw].drop_last() =~= Seq::<Seq<char>>::empty());
    assert(seq![name].drop_last() =~= Seq::<Seq<char>>::empty());
    assert(seq![Seq::<char>::empty()].drop_last() =~= Seq::<Seq<char>>::empty());
    assert(query(raw) =~= seq![(decoded(name), decoded(value))]);
    if name.len() > 0 {
        assert(query(name) =~= seq![(decoded(name), Seq::<char>::empty())]);
    }
}

/// The detectors scan the path, the value of every parameter, the body where it is
/// inspected, and every inspected header value; and nothing else.
pub proof fn law_every_field_is_scanned(r: RequestModel, b: Seq<u8>)
    ensures
        fields(r).contains(b) <==> {
            ||| b == encode_utf8(r.path)
            ||| exists|i: int|
                0 <= i < r.query_params.len() && b == encode_utf8((#[trigger] r.query_params[i]).1)
            ||| r.body_inspected && b == r.body
            ||| r.inspectable_headers.contains(b)
        },
        fields(r).len() == 1 + r.query_params.len() + (if r.body_inspected {
            1nat
        } else {
            0nat
        }) + r.inspectable_headers.len(),
{
    let values = param_values(r.query_params);
    let front = seq![encode_utf8(r.path)] + values;
    let middle = if r.body_inspected {
        front.push(r.body)
    } else {
        front
    };
    vstd::seq_lib::lemma_seq_concat_contains_all_elements(middle, r.inspectable_headers, b);
    vstd::seq_lib::lemma_seq_contains_after_push(front, r.body, b);
    vstd::seq_lib::lemma_seq_concat_contains_all_elements(seq![encode_utf8(r.path)], values, b);
    assert(seq![encode_utf8(r.path)].contains(b) <==> b == encode_utf8(r.path)) by {
        assert(seq![encode_utf8(r.path)][0] == encode_utf8(r.path));
    }
    if values.contains(b) {
        let i = values.index_of(b);
        assert(b == encode_utf8(r.query_params[i].1));
    }
    if exists|i: int|
        0 <= i < r.query_params.len() && b == encode_utf8((#[trigger] r.query_params[i]).1) {
        let i = choose|i: int|
            0 <= i < r.query_params.len() && b == encode_utf8((#[trigger] r.query_params[i]).1);
        assert(values[i] == b);
    }
}

/// The fields stand in a fixed order: the path, the values of the parameters as they
/// came, the body, the header values.
pub proof fn law_fields_stand_in_order(r: RequestModel, i: int)
    ensures
        fields(r)[0] == encode_utf8(r.path),
        0 <= i < r.query_params.len() ==> fields(r)[1 + i] == encode_utf8(r.query_params[i].1),
        r.body_inspected ==> fields(r)[1int + r.query_params.len()] == r.body,
        0 <= i < r.inspectable_headers.len() ==> fields(r)[1int + r.query_params.len() + (
        if r.body_inspected {
            1int
        } else {
            0int
        }) + i] == r.inspectable_headers[i],
{
}

/// The inspected header values are those of each header, in order: none is dropped,
/// and none depends on the others.
pub proof fn law_header_values_are_independent(a: Seq<Pair>, b: Seq<Pair>)
    ensures
        inspectable_values(a + b) == inspectable_values(a) + inspectable_values(b),
    decreases b.len(),
{
    if b.len() == 0 {
        assert(a + b =~= a);
        assert(inspectable_values(a) + inspectable_values(b) =~= inspectable_values(a));
    } else {
        assert((a + b).drop_last() =~= a + b.drop_last());
        assert((a + b).last() == b.last());
        law_header_values_are_independent(a, b.drop_last());
        assert(inspectable_values(a + b) =~= inspectable_values(a) + inspectable_values(b));
    }
}

/// A header that commonly carries what a client controls, or a custom one, is inspected
/// as it stands and, where that differs, decoded; any other is not inspected.
pub proof fn law_header_value_is_inspected_raw_and_decoded(name: Seq<char>, value: Seq<char>)
    ensures
        ({
            let watched = name == "cookie"@ || name == "referer"@ || name == "host"@ || name
                == "authorization"@ || name == "user-agent"@ || (name.len() >= 2 && name[0] == 'x'
                && name[1] == '-');
            inspectable_values(seq![(name, value)]) == if !watched {
                Seq::<Seq<u8>>::empty()
            } else if decoded(value) == value {
                seq![encode_utf8(value)]
            } else {
                seq![encode_utf8(value), encode_utf8(decoded(value))]
            }
        }),
{
    reveal_with_fuel(inspectable_values, 2);
    reveal_strlit("x-");
    let one = seq![(name, value)];
    assert(one.drop_last() =~= Seq::<Pair>::empty());
    if name.len() >= 2 {
        assert(name.take(2)[0] == name[0] && name.take(2)[1] == name[1]);
        if name[0] == 'x' && name[1] == '-' {
            assert(name.take(2) =~= "x-"@);
        }
    }
    if decoded(value) == value {
        assert(Seq::<Seq<u8>>::empty().push(encode_utf8(value)) =~= seq![encode_utf8(value)]);
    } else {
        assert(Seq::<Seq<u8>>::empty().push(encode_utf8(value)).push(encode_utf8(decoded(value)))
            =~= seq![encode_utf8(value), encode_utf8(decoded(value))]);
    }
}

/// The size of the headers is the sum of the sizes of all names and values, as far as
/// the machine can count.
pub proof fn law_header_sizes_add_up(a: Seq<Pair>, name: Seq<char>, value: Seq<char>)
    ensures
        header_size(Seq::<Pair>::empty()) == 0,
        header_size(a) <= usize::MAX,
        ({
            let sum = header_size(a) + encode_utf8(name).len() + encode_utf8(value).len();
            header_size(a.push((name, value))) == if sum <= usize::MAX {
                sum
            } else {
                usize::MAX as nat
            }
        }),
{
    assert(a.push((name, value)).drop_last() =~= a);
}

/// A request is normalized as a whole: the case of the method, the host and the header
/// names does not matter, the path is decoded, and what was received of the query and
/// the body is kept as it came.
pub proof fn law_request_is_normalized(
    method: Seq<char>,
    host: Seq<char>,
    path: Seq<char>,
    raw_query: Seq<char>,
    headers: Seq<Pair>,
    body: Seq<u8>,
    body_inspected: bool,
    source_ip: IpAddr,
    i: int,
)
    ensures
        ({
            let r = normalized(
                method,
                host,
                path,
                raw_query,
                headers,
                body,
                body_inspected,
                source_ip,
            );
            &&& r == normalized(
                text::lower(method),
                text::upper(host),
                path,
                raw_query,
                headers,
                body,
                body_inspected,
                source_ip,
            )
            &&& r.path == decoded_once(decoded_once(decoded_once(path)))
            &&& raw_query.len() > 0 ==> r.raw_query == Some(raw_query)
            &&& raw_query.len() == 0 ==> r.raw_query is None && r.query_params.len() == 0
            &&& r.headers.len() == headers.len()
            &&& 0 <= i < headers.len() ==> r.headers[i].0 == text::lower(headers[i].0)
                && r.headers[i].1 == headers[i].1
            &&& r.body == body && r.body_inspected == body_inspected && !r.body_truncated
            &&& r.source_ip == source_ip
        }),
{
    law_decoding_is_three_passes(path);
    assert(text::upper(text::lower(method)) =~= text::upper(method));
    text::law_lower_case_forgets_the_case(host);
    if raw_query.len() == 0 {
        assert(raw_query =~= Seq::<char>::empty());
        law_part_of_a_query_is_a_parameter(Seq::empty(), Seq::empty());
    }
}

/// Whatever the case of its name, a header is found wherever it stands; the first of a
/// name counts.
pub proof fn law_header_is_found_anywhere(headers: Seq<Pair>, name: Seq<char>, i: int)
    requires
        0 <= i < headers.len(),
        text::lower(headers[i].0) == text::lower(name),
        forall|j: int| 0 <= j < i ==> text::lower((#[trigger] headers[j]).0) != text::lower(name),
    ensures
        header_value(headers, name) == Some(headers[i].1),
    decreases i,
{
    if i > 0 {
        assert(text::lower(headers[0].0) != text::lower(name));
        let rest = headers.skip(1);
        assert(rest[i - 1] == headers[i]);
        assert forall|j: int| 0 <= j < i - 1 implies text::lower((#[trigger] rest[j]).0)
            != text::lower(name) by {
            assert(rest[j] == headers[j + 1]);
        }
        law_header_is_found_anywhere(rest, name, i - 1);
    }
}

/// A header that is not there is not found.
pub proof fn law_missing_header_is_not_found(headers: Seq<Pair>, name: Seq<char>)
    requires
        forall|j: int|
            0 <= j < headers.len() ==> text::lower((#[trigger] headers[j]).0) != text::lower(name),
    ensures
        header_value(headers, name) is None,
    decreases headers.len(),
{
    if headers.len() > 0 {
        assert(text::lower(headers[0].0) != text::lower(name));
        let rest = headers.skip(1);
        assert forall|j: int| 0 <= j < rest.len() implies text::lower((#[trigger] rest[j]).0)
            != text::lower(name) by {
            assert(rest[j] == headers[j + 1]);
        }
        law_missing_header_is_not_found(rest, name);
    }
}

/// A request is seen with its method in capitals, its host in small letters, all its
/// parameters, the size of all its headers, and the watched ones of these whatever the case
/// of their names.
pub proof fn law_request_carries_everything(
    method: Seq<char>,
    host: Seq<char>,
    path: Seq<char>,
    raw_query: Seq<char>,
    headers: Seq<Pair>,
    body: Seq<u8>,
    body_inspected: bool,
    source_ip: IpAddr,
    i: int,
)
    ensures
        ({
            let r = normalized(
                method,
                host,
                path,
                raw_query,
                headers,
                body,
                body_inspected,
                source_ip,
            );
            &&& r.method.len() == method.len()
            &&& 0 <= i < method.len() ==> r.method[i] == (if 'a' <= method[i] && method[i] <= 'z' {
                (method[i] as u32 - 32) as char
            } else {
                method[i]
            })
            &&& r.host.len() == host.len()
            &&& 0 <= i < host.len() ==> r.host[i] == (if 'A' <= host[i] && host[i] <= 'Z' {
                (host[i] as u32 + 32) as char
            } else {
                host[i]
            })
            &&& r.query_params == query(raw_query)
            &&& r.header_bytes == header_size(headers)
            &&& r.inspectable_headers == inspectable_values(r.headers)
        }),
{
}

} // verus!
