//! What the proxy sees of a request.
use vstd::prelude::*;
use vstd::utf8::*;

use crate::audit;
use crate::bytes;
use crate::bytes::{lossy_text, text_bytes};
use crate::ip::IpAddr;
use crate::request;
use crate::request::{decode_once, Findings, Pair, Request, RequestModel};
use crate::text;
use crate::text::{
    chars_of, copy_text, find_char, same_ignoring_case, split_text, text_between, to_lower, to_upper,
};

verus! {

/// A request, normalized and decoded once.
#[derive(Debug)]
pub struct RequestView {
    /// The method, in upper case.
    pub method: String,
    /// The host, in lower case.
    pub host: String,
    /// The path, decoded.
    pub path: String,
    /// The query as it came, if any.
    pub raw_query: Option<String>,
    /// The query's parameters, decoded.
    pub query_params: Vec<(String, String)>,
    /// The headers, with their names in lower case.
    pub headers: Vec<(String, String)>,
    /// The number of bytes of the headers.
    pub header_bytes: usize,
    /// The body.
    pub body: Vec<u8>,
    /// The body as text.
    pub body_text: String,
    /// Whether the body is inspected.
    pub body_inspected: bool,
    /// The client's address.
    pub source_ip: IpAddr,
}

/// What a view holds.
#[verifier::ext_equal]
pub struct ViewModel {
    pub method: Seq<char>,
    pub host: Seq<char>,
    pub path: Seq<char>,
    pub raw_query: Option<Seq<char>>,
    pub query_params: Seq<Pair>,
    pub headers: Seq<Pair>,
    pub header_bytes: nat,
    pub body: Seq<u8>,
    pub body_text: Seq<char>,
    pub body_inspected: bool,
    pub source_ip: IpAddr,
}

impl View for RequestView {
    type V = ViewModel;

    open spec fn view(&self) -> ViewModel {
        ViewModel {
            method: self.method@,
            host: self.host@,
            path: self.path@,
            raw_query: audit::opt_view(self.raw_query),
            query_params: request::pairs(self.query_params@),
            headers: request::pairs(self.headers@),
            header_bytes: self.header_bytes as nat,
            body: self.body@,
            body_text: self.body_text@,
            body_inspected: self.body_inspected,
            source_ip: self.source_ip,
        }
    }
}

/// The parameter that one piece of a query stands for.
pub open spec fn param_once(piece: Seq<char>) -> Pair {
    match text::first_index(piece, '=') {
        Some(i) => (
            request::decoded_once(piece.take(i)),
            request::decoded_once(piece.skip(i + 1)),
        ),
        None => (request::decoded_once(piece), Seq::empty()),
    }
}

/// The parameters of a list of pieces; empty pieces are skipped.
pub open spec fn params_once(pieces: Seq<Seq<char>>) -> Seq<Pair>
    decreases pieces.len(),
{
    if pieces.len() == 0 {
        Seq::empty()
    } else {
        let before = params_once(pieces.drop_last());
        if pieces.last().len() == 0 {
            before
        } else {
            before.push(param_once(pieces.last()))
        }
    }
}

/// The view of a request.
pub open spec fn viewed(
    method: Seq<char>,
    host: Seq<char>,
    path: Seq<char>,
    raw_query: Seq<char>,
    headers: Seq<Pair>,
    body: Seq<u8>,
    body_inspected: bool,
    source_ip: IpAddr,
) -> ViewModel {
    ViewModel {
        method: text::upper(method),
        host: text::lower(host),
        path: request::decoded_once(path),
        raw_query: if raw_query.len() == 0 {
            None
        } else {
            Some(raw_query)
        },
        query_params: params_once(text::split(raw_query, '&')),
        headers: request::lower_names(headers),
        header_bytes: request::header_size(headers),
        body,
        body_text: bytes::lossy(body),
        body_inspected,
        source_ip,
    }
}

/// The texts that detectors scan, in order: the path, the query's values, and the
/// body where it is inspected.
pub open spec fn scanned_texts(v: ViewModel) -> Seq<Seq<char>> {
    let front = seq![v.path] + v.query_params.map_values(|p: Pair| p.1);
    if v.body_inspected {
        front.push(v.body_text)
    } else {
        front
    }
}

/// Borrowed texts, by their characters.
pub open spec fn str_views(v: Seq<&str>) -> Seq<Seq<char>> {
    v.map_values(|s: &str| s@)
}

fn parse_param(piece: &str) -> (r: (String, String))
    ensures
        (r.0@, r.1@) == param_once(piece@),
{
    let c = chars_of(piece);
    match find_char(&c, '=') {
        Some(i) => {
            proof {
                text::lemma_first_index(piece@, '=');
            }
            let n: usize = c.len();
            let k = text_between(&c, 0, i);
            let v = text_between(&c, i + 1, n);
            assert(k@ =~= piece@.take(i as int));
            assert(v@ =~= piece@.skip(i + 1));
            (decode_once(&k), decode_once(&v))
        },
        None => (decode_once(piece), String::new()),
    }
}

fn parse_query(raw: &str) -> (r: Vec<(String, String)>)
    ensures
        request::pairs(r@) == params_once(text::split(raw@, '&')),
{
    let pieces = split_text(raw, '&');
    let ghost all = text::split(raw@, '&');
    let mut out: Vec<(String, String)> = Vec::new();
    let mut i: usize = 0;
    assert(request::pairs(out@) =~= params_once(all.take(0)));
    while i < pieces.len()
        invariant
            i <= pieces@.len(),
            all == text::texts(pieces@),
            request::pairs(out@) == params_once(all.take(i as int)),
        decreases pieces@.len() - i,
    {
        assert(all.take(i + 1).drop_last() =~= all.take(i as int));
        assert(all.take(i + 1).last() == pieces@[i as int]@);
        let ghost before = request::pairs(out@);
        if !pieces[i].as_str().is_empty() {
            let p = parse_param(&pieces[i]);
            out.push(p);
            assert(request::pairs(out@) =~= before.push((p.0@, p.1@)));
        }
        i = i + 1;
    }
    assert(all.take(i as int) =~= all);
    out
}

fn copy_pairs(list: &Vec<(String, String)>) -> (r: Vec<(String, String)>)
    ensures
        request::pairs(r@) == request::pairs(list@),
{
    let ghost all = request::pairs(list@);
    let mut out: Vec<(String, String)> = Vec::new();
    let mut i: usize = 0;
    assert(request::pairs(out@) =~= all.take(0));
    while i < list.len()
        invariant
            i <= list@.len(),
            all == request::pairs(list@),
            request::pairs(out@) == all.take(i as int),
        decreases list@.len() - i,
    {
        let ghost before = request::pairs(out@);
        let pair = (copy_text(&list[i].0), copy_text(&list[i].1));
        let ghost entry: Pair = (pair.0@, pair.1@);
        out.push(pair);
        assert(request::pairs(out@) =~= before.push(entry));
        assert(all.take(i + 1) =~= all.take(i as int).push(entry));
        i = i + 1;
    }
    assert(all.take(i as int) =~= all);
    out
}

impl RequestView {
    /// The view of a request. `raw_query` is what follows the question mark, or
    /// empty.
    #[allow(clippy::too_many_arguments)]
    pub fn build(
        method: &str,
        host: &str,
        path: &str,
        raw_query: &str,
        headers: Vec<(String, String)>,
        body: Vec<u8>,
        body_inspected: bool,
        source_ip: IpAddr,
    ) -> (r: RequestView)
        ensures
            r@ == viewed(
                method@,
                host@,
                path@,
                raw_query@,
                request::pairs(headers@),
                body@,
                body_inspected,
                source_ip,
            ),
    {
        let ghost all = request::pairs(headers@);
        let query_params = parse_query(raw_query);
        let mut header_bytes: usize = 0;
        let mut lowered: Vec<(String, String)> = Vec::new();
        assert(request::pairs(lowered@) =~= request::lower_names(all.take(0)));
        for (k, v) in it: headers
            invariant
                it.seq() == headers@,
                all == request::pairs(headers@),
                header_bytes == request::header_size(all.take(it.index() as int)),
                request::pairs(lowered@) == request::lower_names(all.take(it.index() as int)),
        {
            let ghost n = it.index() as int;
            let ghost before = request::pairs(lowered@);
            assert(all.take(n + 1).drop_last() =~= all.take(n));
            assert(all.take(n + 1).last() == (k@, v@));
            let k_len: usize = k.as_str().as_bytes().len();
            let v_len: usize = v.as_str().as_bytes().len();
            header_bytes = header_bytes.saturating_add(k_len).saturating_add(v_len);
            let name = to_lower(&k);
            let ghost pair: Pair = (text::lower(k@), v@);
            lowered.push((name, v));
            assert(request::pairs(lowered@) =~= before.push(pair));
            assert(request::lower_names(all.take(n + 1)) =~= request::lower_names(all.take(n)).push(
                pair,
            ));
        }
        assert(all.take(all.len() as int) =~= all);
        let body_text = lossy_text(&body);
        RequestView {
            method: to_upper(method),
            host: to_lower(host),
            path: decode_once(path),
            raw_query: if raw_query.is_empty() {
                None
            } else {
                Some(copy_text(raw_query))
            },
            query_params,
            headers: lowered,
            header_bytes,
            body,
            body_text,
            body_inspected,
            source_ip,
        }
    }

    /// The query as it came, if any.
    pub fn raw_query(&self) -> (r: Option<&str>)
        ensures
            request::opt_text(r) == self@.raw_query,
    {
        match &self.raw_query {
            Some(q) => Some(q.as_str()),
            None => None,
        }
    }

    /// The texts that detectors scan.
    pub fn inspectable_fields(&self) -> (r: Vec<&str>)
        ensures
            str_views(r@) == scanned_texts(self@),
    {
        let ghost params = request::pairs(self.query_params@).map_values(|p: Pair| p.1);
        let mut out: Vec<&str> = Vec::new();
        out.push(self.path.as_str());
        let mut i: usize = 0;
        assert(str_views(out@) =~= seq![self.path@] + params.take(0));
        while i < self.query_params.len()
            invariant
                i <= self.query_params@.len(),
                params == request::pairs(self.query_params@).map_values(|p: Pair| p.1),
                str_views(out@) == seq![self.path@] + params.take(i as int),
            decreases self.query_params@.len() - i,
        {
            let ghost before = str_views(out@);
            out.push(self.query_params[i].1.as_str());
            assert(params[i as int] == self.query_params@[i as int].1@);
            assert(str_views(out@) =~= before.push(params[i as int]));
            assert(seq![self.path@] + params.take(i + 1) =~= (seq![self.path@] + params.take(
                i as int,
            )).push(params[i as int]));
            i = i + 1;
        }
        assert(params.take(i as int) =~= params);
        if self.body_inspected {
            let ghost before = str_views(out@);
            out.push(self.body_text.as_str());
            assert(str_views(out@) =~= before.push(self.body_text@));
        }
        out
    }

    /// The value of a header; the case of the name does not matter.
    pub fn header(&self, name: &str) -> (r: Option<&str>)
        ensures
            request::opt_text(r) == request::header_value(self@.headers, name@),
    {
        let ghost all = request::pairs(self.headers@);
        let mut i: usize = 0;
        assert(all.skip(0) =~= all);
        while i < self.headers.len()
            invariant
                i <= self.headers@.len(),
                all == request::pairs(self.headers@),
                request::header_value(all, name@) == request::header_value(
                    all.skip(i as int),
                    name@,
                ),
            decreases self.headers@.len() - i,
        {
            assert(all.skip(i as int)[0] == (
                self.headers@[i as int].0@,
                self.headers@[i as int].1@,
            ));
            if same_ignoring_case(&self.headers[i].0, name) {
                return Some(self.headers[i].1.as_str());
            }
            assert(all.skip(i as int).skip(1) =~= all.skip(i + 1));
            i = i + 1;
        }
        None
    }

    /// The view as the engine's detectors read it: the same texts are scanned, in
    /// the same order.
    pub fn to_request(&self) -> (r: Request)
        ensures
            r@ == as_request(self@),
    {
        let body = text_bytes(&self.body_text);
        let r = Request {
            method: copy_text(&self.method),
            host: copy_text(&self.host),
            path: copy_text(&self.path),
            raw_query: match &self.raw_query {
                Some(q) => Some(copy_text(q)),
                None => None,
            },
            query_params: copy_pairs(&self.query_params),
            headers: copy_pairs(&self.headers),
            header_bytes: self.header_bytes,
            body,
            body_inspected: self.body_inspected,
            body_truncated: false,
            source_ip: self.source_ip,
            inspectable_headers: Vec::new(),
            findings: Findings { sqli: Vec::new(), xss: Vec::new(), suffix_sqli: Vec::new() },
        };
        assert(r@.inspectable_headers =~= Seq::<Seq<u8>>::empty());
        assert(r@ =~= as_request(self@));
        r
    }
}

/// A view as the engine's detectors read it.
pub open spec fn as_request(v: ViewModel) -> RequestModel {
    RequestModel {
        method: v.method,
        host: v.host,
        path: v.path,
        raw_query: v.raw_query,
        query_params: v.query_params,
        headers: v.headers,
        header_bytes: v.header_bytes,
        body: encode_utf8(v.body_text),
        body_inspected: v.body_inspected,
        body_truncated: false,
        source_ip: v.source_ip,
        inspectable_headers: Seq::empty(),
        sqli: Seq::empty(),
        xss: Seq::empty(),
        suffix_sqli: Seq::empty(),
    }
}

/// The engine scans just the bytes of the view's texts.
pub proof fn law_engine_scans_the_texts(v: ViewModel)
    ensures
        request::fields(as_request(v)) == scanned_texts(v).map_values(
            |t: Seq<char>| encode_utf8(t),
        ),
{
    assert(request::fields(as_request(v)) =~= scanned_texts(v).map_values(
        |t: Seq<char>| encode_utf8(t),
    ));
}

/// A body that is not inspected is not scanned.
pub proof fn law_uninspected_body_is_not_scanned(v: ViewModel, w: ViewModel)
    requires
        !v.body_inspected,
        w == (ViewModel { body: w.body, body_text: w.body_text, ..v }),
    ensures
        scanned_texts(v) == scanned_texts(w),
{
}

proof fn lemma_params_apart(a: Seq<Seq<char>>, b: Seq<Seq<char>>)
    ensures
        params_once(a + b) == params_once(a) + params_once(b),
    decreases b.len(),
{
    if b.len() == 0 {
        assert(a + b =~= a);
        assert(params_once(a) + params_once(b) =~= params_once(a));
    } else {
        lemma_params_apart(a, b.drop_last());
        assert((a + b).drop_last() =~= a + b.drop_last());
        assert((a + b).last() == b.last());
        assert(params_once(a + b) =~= params_once(a) + params_once(b));
    }
}

/// The parts of a query around an ampersand are read as if each stood alone.
pub proof fn law_query_parts_are_read_apart(a: Seq<char>, b: Seq<char>)
    ensures
        params_once(text::split(a + seq!['&'] + b, '&')) == params_once(text::split(a, '&'))
            + params_once(text::split(b, '&')),
{
    text::law_separator_parts_the_pieces(a, '&', b);
    lemma_params_apart(text::split(a, '&'), text::split(b, '&'));
}

/// A part is a name and a value around its first equals sign, each decoded once; without
/// one it is a name. An empty part is nothing.
pub proof fn law_part_is_a_name_and_a_value(name: Seq<char>, value: Seq<char>)
    requires
        !name.contains('&') && !name.contains('='),
        !value.contains('&'),
    ensures
        params_once(text::split(name + seq!['='] + value, '&')) == seq![
            (request::decoded_once(name), request::decoded_once(value)),
        ],
        name.len() > 0 ==> params_once(text::split(name, '&')) == seq![
            (request::decoded_once(name), Seq::<char>::empty()),
        ],
        params_once(text::split(Seq::<char>::empty(), '&')).len() == 0,
{
    reveal_with_fuel(params_once, 2);
    let s = name + seq!['='] + value;
    let at = name.len() as int;
    assert(s[at] == '=');
    assert(!s.contains('&')) by {
        if s.contains('&') {
            let i = s.index_of('&');
            if i < at {
                assert(name[i] == '&');
            } else if i > at {
                assert(value[i - at - 1] == '&');
            }
        }
    }
    text::lemma_split_without(s, '&');
    text::lemma_split_without(name, '&');
    text::lemma_split_without(Seq::<char>::empty(), '&');
    text::lemma_first_index(s, '=');
    text::lemma_first_index(name, '=');
    let f = text::first_index(s, '=')->0;
    if f < at {
        assert(name[f] == '=');
    }
    assert(f == at);
    assert(s.take(at) =~= name);
    assert(s.skip(at + 1) =~= value);
    if text::first_index(name, '=') is Some {
        assert(name.contains(name[text::first_index(name, '=')->0]));
    }
    let none = Seq::<Seq<char>>::empty();
    assert(seq![s].drop_last() =~= none);
    assert(seq![name].drop_last() =~= none);
    assert(seq![Seq::<char>::empty()].drop_last() =~= none);
    assert(params_once(seq![s]) =~= seq![param_once(s)]);
    if name.len() > 0 {
        assert(params_once(seq![name]) =~= seq![param_once(name)]);
    }
}

/// What is viewed of a request is all of it: the method in capitals, the host in small
/// letters, the path decoded once, every header under its name in small letters, and the
/// body as it is.
pub proof fn law_request_is_viewed_whole(
    method: Seq<char>,
    host: Seq<char>,
    path: Seq<char>,
    raw_query: Seq<char>,
    headers: Seq<Pair>,
    body: Seq<u8>,
    body_inspected: bool,
    source_ip: IpAddr,
    i: int,
)
    requires
        0 <= i < headers.len(),
    ensures
        ({
            let v = viewed(
                method,
                host,
                path,
                raw_query,
                headers,
                body,
                body_inspected,
                source_ip,
            );
            &&& v.method == text::upper(method)
            &&& v.host == text::lower(host)
            &&& v.path == request::decoded_once(path)
            &&& v.raw_query is None <==> raw_query.len() == 0
            &&& raw_query.len() > 0 ==> v.raw_query == Some(raw_query)
            &&& v.headers.len() == headers.len()
            &&& v.headers[i].0 == text::lower(headers[i].0)
            &&& v.headers[i].1 == headers[i].1
            &&& v.body == body && v.body_inspected == body_inspected && v.source_ip == source_ip
        }),
{
}

/// The path and the value of every parameter are scanned, and the body where it is to be.
pub proof fn law_every_text_is_scanned(v: ViewModel, i: int)
    requires
        0 <= i < v.query_params.len(),
    ensures
        scanned_texts(v)[0] == v.path,
        scanned_texts(v)[i + 1] == v.query_params[i].1,
        v.body_inspected ==> scanned_texts(v).last() == v.body_text,
        scanned_texts(v).len() == v.query_params.len() + if v.body_inspected {
            2nat
        } else {
            1nat
        },
{
}

/// The view holds all parameters of the query, the size of all headers, and the body both
/// as bytes and as text.
pub proof fn law_view_carries_everything(
    method: Seq<char>,
    host: Seq<char>,
    path: Seq<char>,
    raw_query: Seq<char>,
    headers: Seq<Pair>,
    body: Seq<char>,
    body_inspected: bool,
    source_ip: IpAddr,
)
    ensures
        ({
            let v = viewed(
                method,
                host,
                path,
                raw_query,
                headers,
                encode_utf8(body),
                body_inspected,
                source_ip,
            );
            &&& v.query_params == params_once(text::split(raw_query, '&'))
            &&& v.header_bytes == request::header_size(headers)
            &&& v.body_text == body
        }),
{
    bytes::law_lossy_reads_text_back(body);
}

/// The engine sees the request that was viewed.
pub proof fn law_engine_sees_the_view(v: ViewModel)
    ensures
        as_request(v).method == v.method,
        as_request(v).host == v.host,
        as_request(v).path == v.path,
        as_request(v).query_params == v.query_params,
        as_request(v).headers == v.headers,
        as_request(v).header_bytes == v.header_bytes,
        as_request(v).body_inspected == v.body_inspected,
        as_request(v).source_ip == v.source_ip,
{
}

} // verus!
