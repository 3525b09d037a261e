//! HTTP requests and responses: URL paths and query parameters, response building,
//! routing and the answer to a query.

use vstd::prelude::*;
use vstd::string::{StrSliceExecFns, StringExecFns, StringSliceAdditionalSpecFns};
use vstd::utf8::encode_utf8;

verus! {

/// An HTTP request as the host hands it over.
#[derive(Debug, Clone)]
pub struct HttpRequest {
    pub method: String,
    pub url: String,
    pub headers: Vec<(String, String)>,
    pub body: Vec<u8>,
}

/// Position of the first `c` in `s`, or the length of `s` where there is none.
pub open spec fn find(s: Seq<char>, c: char) -> nat
    decreases s.len(),
{
    if s.len() == 0 {
        0
    } else if s[0] == c {
        0
    } else {
        1 + find(s.subrange(1, s.len() as int), c)
    }
}

/// The text before the first `?` of a URL: its path.
pub open spec fn url_path(url: Seq<char>) -> Seq<char> {
    url.take(find(url, '?') as int)
}

/// The query of a URL: the text between its first `?` and the `?` after that, if any.
pub open spec fn url_query(url: Seq<char>) -> Option<Seq<char>> {
    let q = find(url, '?') as int;
    if q == url.len() {
        Option::None
    } else {
        let rest = url.skip(q + 1);
        Option::Some(rest.take(find(rest, '?') as int))
    }
}

/// The value of the first `&`-separated chunk of `q` whose name (its text before any
/// `=`) is `param`: the text after that `=`, or nothing where the chunk has no `=`.
pub open spec fn param_in(q: Seq<char>, param: Seq<char>) -> Option<Seq<char>>
    decreases q.len(),
{
    let a = find(q, '&') as int;
    let chunk = q.take(a);
    let e = find(chunk, '=') as int;
    if chunk.take(e) == param {
        Option::Some(
            if e == chunk.len() {
                Seq::<char>::empty()
            } else {
                chunk.skip(e + 1)
            },
        )
    } else if a >= q.len() {
        Option::None
    } else {
        param_in(q.skip(a + 1), param)
    }
}

/// The value of the first query parameter of a URL named `param`.
pub open spec fn query_param(url: Seq<char>, param: Seq<char>) -> Option<Seq<char>> {
    match url_query(url) {
        Option::None => Option::None,
        Option::Some(q) => if q.len() == 0 {
            Option::None
        } else {
            param_in(q, param)
        },
    }
}

proof fn lemma_find(s: Seq<char>, c: char, i: int)
    requires
        0 <= i <= s.len(),
        forall|j: int| 0 <= j < i ==> s[j] != c,
        i == s.len() || s[i] == c,
    ensures
        find(s, c) == i,
    decreases s.len(),
{
    if s.len() > 0 && s[0] != c {
        let t = s.subrange(1, s.len() as int);
        assert forall|j: int| 0 <= j < i - 1 implies t[j] != c by {
            assert(t[j] == s[j + 1]);
        }
        if i < s.len() {
            assert(t[i - 1] == s[i]);
        }
        lemma_find(t, c, i - 1);
    }
}

/// Position of the first `c` in the characters `from..to` of `s`, or `to`.
fn find_char(s: &str, from: usize, to: usize, c: char) -> (r: usize)
    requires
        from <= to <= s@.len(),
    ensures
        from <= r <= to,
        r - from == find(s@.subrange(from as int, to as int), c),
{
    let mut i = from;
    while i < to && s.get_char(i) != c
        invariant
            from <= i <= to <= s@.len(),
            forall|j: int| from <= j < i ==> s@[j] != c,
        decreases to - i,
    {
        i = i + 1;
    }
    proof {
        let t = s@.subrange(from as int, to as int);
        assert forall|j: int| 0 <= j < i - from implies t[j] != c by {
            assert(t[j] == s@[from + j]);
        }
        if i < to {
            assert(t[i - from] == s@[i as int]);
        }
        lemma_find(t, c, i - from);
    }
    i
}

/// Whether two texts are equal.
fn same_text(a: &str, b: &str) -> (r: bool)
    ensures
        r == (a@ == b@),
{
    let x = String::from_str(a);
    let y = String::from_str(b);
    x.eq(&y)
}

impl HttpRequest {
    /// The path of the request's URL: the text before its first `?`.
    pub fn path(&self) -> (r: &str)
        ensures
            r@ == url_path(self.url@),
    {
        let u = self.url.as_str();
        let n = u.unicode_len();
        let q = find_char(u, 0, n, '?');
        assert(u@.subrange(0, n as int) == u@);
        u.substring_char(0, q)
    }

    /// The value of the first query parameter named `param`, where the URL has one.
    pub fn raw_query_param(&self, param: &str) -> (r: Option<&str>)
        ensures
            match r {
                Option::Some(v) => query_param(self.url@, param@) == Option::Some(v@),
                Option::None => query_param(self.url@, param@) is None,
            },
    {
        let u = self.url.as_str();
        let ghost s = u@;
        let n = u.unicode_len();
        let q = find_char(u, 0, n, '?');
        assert(s.subrange(0, n as int) == s);
        if q == n {
            return Option::None;
        }
        let qs = q + 1;
        let qe = find_char(u, qs, n, '?');
        assert(s.subrange(qs as int, n as int) == s.skip(qs as int));
        assert(s.skip(qs as int).take(qe - qs) == s.subrange(qs as int, qe as int));
        if qs == qe {
            return Option::None;
        }
        let mut pos = qs;
        while pos <= qe
            invariant
                s == u@,
                s == self.url@,
                qs <= pos <= qe <= s.len(),
                query_param(s, param@) == param_in(s.subrange(pos as int, qe as int), param@),
            decreases qe - pos,
        {
            let ghost t = s.subrange(pos as int, qe as int);
            let a = find_char(u, pos, qe, '&');
            let e = find_char(u, pos, a, '=');
            proof {
                assert(t.take(a - pos) == s.subrange(pos as int, a as int));
                assert(s.subrange(pos as int, a as int).take(e - pos) == s.subrange(pos as int, e as int));
            }
            let name = u.substring_char(pos, e);
            proof {
                let chunk = t.take(a - pos);
                assert(chunk.take(e - pos) == name@);
                assert(param_in(t, param@) == if chunk.take(e - pos) == param@ {
                    Option::Some(
                        if e - pos == chunk.len() {
                            Seq::<char>::empty()
                        } else {
                            chunk.skip(e - pos + 1)
                        },
                    )
                } else if a - pos >= t.len() {
                    Option::None
                } else {
                    param_in(t.skip(a - pos + 1), param@)
                });
            }
            if same_text(name, param) {
                if e == a {
                    assert(s.subrange(a as int, a as int) =~= Seq::<char>::empty());
                    return Option::Some(u.substring_char(a, a));
                }
                assert(s.subrange(pos as int, a as int).skip(e - pos + 1) == s.subrange(e + 1, a as int));
                return Option::Some(u.substring_char(e + 1, a));
            }
            if a == qe {
                return Option::None;
            }
            assert(t.skip(a - pos + 1) == s.subrange(a + 1, qe as int));
            pos = a + 1;
        }
        Option::None
    }
}

/// An HTTP response as the host sends it.
#[derive(Debug, Clone)]
pub struct HttpResponse {
    pub status_code: u16,
    pub headers: Vec<(String, String)>,
    pub body: Vec<u8>,
}

/// Builds a response step by step.
pub struct HttpResponseBuilder(pub HttpResponse);

/// Header names and values as text.
pub open spec fn header_views(h: Seq<(String, String)>) -> Seq<(Seq<char>, Seq<char>)> {
    h.map_values(|p: (String, String)| (p.0@, p.1@))
}

pub open spec fn digit_char(d: nat) -> char {
    "0123456789"@[d as int]
}

/// The decimal text of a number.
pub open spec fn decimal_text(n: nat) -> Seq<char>
    decreases n,
{
    if n < 10 {
        seq![digit_char(n)]
    } else {
        decimal_text(n / 10).push(digit_char(n % 10))
    }
}

/// The decimal text of `n`.
pub fn decimal_string(n: usize) -> (r: String)
    ensures
        r@ == decimal_text(n as nat),
    decreases n,
{
    let digits = "0123456789";
    proof {
        reveal_strlit("0123456789");
    }
    let d = n % 10;
    let last = digits.substring_char(d, d + 1);
    assert(last@ =~= seq![digit_char(d as nat)]);
    if n < 10 {
        String::from_str(last)
    } else {
        let mut s = decimal_string(n / 10);
        s.append(last);
        s
    }
}

fn text_bytes(s: &str) -> (r: Vec<u8>)
    ensures
        r@ == s.spec_bytes(),
{
    s.as_bytes_vec()
}

/// A name for the gzip stream that flate2 makes of some bytes.
pub uninterp spec fn gzip_of(data: Seq<u8>) -> Seq<u8>;

/// Relies on flate2's `GzEncoder` at `Compression::default()` writing into a `Vec`: the
/// gzip stream it finishes with depends on the bytes written alone. Where writing or
/// finishing reports an error there is no stream.
#[verifier::external_body]
fn gzip(data: &[u8]) -> (r: Option<Vec<u8>>)
    ensures
        r matches Option::Some(z) ==> z@ == gzip_of(data@),
{
    let mut encoder = flate2::write::GzEncoder::new(Vec::new(), flate2::Compression::default());
    std::io::Write::write_all(&mut encoder, data).ok()?;
    encoder.finish().ok()
}

impl HttpResponseBuilder {
    /// A 200 response with no header and an empty body.
    pub fn ok() -> (r: Self)
        ensures
            r.0.status_code == 200,
            r.0.headers@.len() == 0,
            r.0.body@.len() == 0,
    {
        HttpResponseBuilder(HttpResponse { status_code: 200, headers: Vec::new(), body: Vec::new() })
    }

    /// A 400 response whose body reads `bad request`.
    pub fn bad_request() -> (r: Self)
        ensures
            r.0.status_code == 400,
            r.0.headers@.len() == 0,
            r.0.body@ == "bad request".spec_bytes(),
    {
        HttpResponseBuilder(
            HttpResponse { status_code: 400, headers: Vec::new(), body: text_bytes("bad request") },
        )
    }

    /// A 404 response whose body reads `not found`.
    pub fn not_found() -> (r: Self)
        ensures
            r.0.status_code == 404,
            r.0.headers@.len() == 0,
            r.0.body@ == "not found".spec_bytes(),
    {
        HttpResponseBuilder(
            HttpResponse { status_code: 404, headers: Vec::new(), body: text_bytes("not found") },
        )
    }

    /// A 500 response whose body is `reason`.
    pub fn server_error(reason: &str) -> (r: Self)
        ensures
            r.0.status_code == 500,
            r.0.headers@.len() == 0,
            r.0.body@ == reason.spec_bytes(),
    {
        HttpResponseBuilder(
            HttpResponse { status_code: 500, headers: Vec::new(), body: text_bytes(reason) },
        )
    }

    /// Adds a header.
    pub fn header(&mut self, name: &str, value: &str)
        ensures
            final(self).0.status_code == old(self).0.status_code,
            final(self).0.body == old(self).0.body,
            header_views(final(self).0.headers@) == header_views(old(self).0.headers@).push(
                (name@, value@),
            ),
    {
        let ghost before = self.0.headers@;
        self.0.headers.push((String::from_str(name), String::from_str(value)));
        assert(header_views(self.0.headers@) =~= header_views(before).push((name@, value@)));
    }

    /// Sets the body.
    pub fn body(&mut self, bytes: Vec<u8>)
        ensures
            final(self).0.status_code == old(self).0.status_code,
            final(self).0.headers == old(self).0.headers,
            final(self).0.body@ == bytes@,
    {
        self.0.body = bytes;
    }

    /// Sets the body and adds a `Content-Length` header that gives its size.
    pub fn with_body_and_content_length(&mut self, bytes: Vec<u8>)
        ensures
            final(self).0.status_code == old(self).0.status_code,
            header_views(final(self).0.headers@) == header_views(old(self).0.headers@).push(
                ("Content-Length"@, decimal_text(bytes@.len())),
            ),
            final(self).0.body@ == bytes@,
    {
        let size = decimal_string(bytes.len());
        self.header("Content-Length", size.as_str());
        self.body(bytes);
    }

    /// The response built.
    pub fn build(self) -> (r: HttpResponse)
        ensures
            r == self.0,
    {
        self.0
    }
}

/// What a request asks for.
#[derive(Debug, Clone, PartialEq, Eq)]
pub enum Route {
    /// `/health`
    Health,
    /// `/query`, with the value of its `measurement` parameter where it has one.
    Query(Option<String>),
    NotFound,
}

pub const HEALTH_PATH: &'static str = "/health";

pub const QUERY_PATH: &'static str = "/query";

pub const MEASUREMENT_PARAM: &'static str = "measurement";

pub const JSON_CONTENT_TYPE: &'static str = "application/json; charset=utf-8";

/// Where a request goes, by the path of its URL.
pub fn route(req: &HttpRequest) -> (r: Route)
    ensures
        url_path(req.url@) == HEALTH_PATH@ ==> r == Route::Health,
        url_path(req.url@) != HEALTH_PATH@ && url_path(req.url@) == QUERY_PATH@ ==> (r matches Route::Query(m) && match m {
            Option::Some(s) => query_param(req.url@, MEASUREMENT_PARAM@) == Option::Some(s@),
            Option::None => query_param(req.url@, MEASUREMENT_PARAM@) is None,
        }),
        url_path(req.url@) != HEALTH_PATH@ && url_path(req.url@) != QUERY_PATH@ ==> r == Route::NotFound,
{
    let path = req.path();
    if same_text(path, HEALTH_PATH) {
        Route::Health
    } else if same_text(path, QUERY_PATH) {
        match req.raw_query_param(MEASUREMENT_PARAM) {
            Option::Some(m) => Route::Query(Option::Some(String::from_str(m))),
            Option::None => Route::Query(Option::None),
        }
    } else {
        Route::NotFound
    }
}

/// The answer to a health check.
pub fn health_response() -> (r: HttpResponse)
    ensures
        r.status_code == 200,
        header_views(r.headers@) == seq![("Content-Type"@, JSON_CONTENT_TYPE@)],
        r.body@.len() == 0,
{
    let mut response = HttpResponseBuilder::ok();
    response.header("Content-Type", JSON_CONTENT_TYPE);
    assert(header_views(response.0.headers@) =~= seq![("Content-Type"@, JSON_CONTENT_TYPE@)]);
    response.build()
}

/// The text a query answers with: nothing without a series name; with one, the series'
/// entries as JSON (`data`) framed with its name, or a notice where they could not be
/// written as JSON.
pub open spec fn query_body(measurement: Option<Seq<char>>, data: Option<Seq<char>>) -> Seq<char> {
    match measurement {
        Option::None => Seq::<char>::empty(),
        Option::Some(m) => match data {
            Option::Some(d) => "{\"measurement\":\""@ + m + "\", \"data\": "@ + d + "}"@,
            Option::None => "Error while processing data"@,
        },
    }
}

/// Bodies longer than this many bytes are sent compressed.
pub const COMPRESS_ABOVE: usize = 100;

/// The answer to a query for the entries of a series: 200 with a JSON content type. A
/// body over the size limit goes out gzip-compressed with its length, or, where
/// compression failed, as a notice of that; a shorter one is not attached.
pub fn query_response(measurement: Option<&str>, data: Option<&str>) -> (r: HttpResponse)
    ensures
        ({
            let m = match measurement {
                Option::Some(s) => Option::Some(s@),
                Option::None => Option::None,
            };
            let d = match data {
                Option::Some(s) => Option::Some(s@),
                Option::None => Option::None,
            };
            let text = encode_utf8(query_body(m, d));
            let ct = ("Content-Type"@, JSON_CONTENT_TYPE@);
            &&& r.status_code == 200
            &&& text.len() <= COMPRESS_ABOVE ==> header_views(r.headers@) == seq![ct] && r.body@.len() == 0
            &&& text.len() > COMPRESS_ABOVE ==> {
                ||| r.body@ == gzip_of(text) && header_views(r.headers@) == seq![
                    ct,
                    ("Content-Encoding"@, "gzip"@),
                    ("Content-Length"@, decimal_text(r.body@.len())),
                ]
                ||| r.body@ == "Error while compressing data".spec_bytes() && header_views(r.headers@)
                    == seq![ct, ("Content-Length"@, decimal_text(r.body@.len()))]
            }
        }),
{
    let body = match measurement {
        Option::None => String::new(),
        Option::Some(m) => match data {
            Option::Some(d) => {
                let mut b = String::from_str("{\"measurement\":\"");
                b.append(m);
                b.append("\", \"data\": ");
                b.append(d);
                b.append("}");
                b
            },
            Option::None => String::from_str("Error while processing data"),
        },
    };
    let mut response = HttpResponseBuilder::ok();
    response.header("Content-Type", JSON_CONTENT_TYPE);
    let ghost ct = header_views(response.0.headers@);
    assert(ct =~= seq![("Content-Type"@, JSON_CONTENT_TYPE@)]);
    let bytes = body.as_str().as_bytes();
    if bytes.len() > COMPRESS_ABOVE {
        match gzip(bytes) {
            Option::Some(z) => {
                response.header("Content-Encoding", "gzip");
                response.with_body_and_content_length(z);
            },
            Option::None => {
                response.with_body_and_content_length(text_bytes("Error while compressing data"));
            },
        }
    }
    response.build()
}

} // verus!
