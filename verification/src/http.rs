//! The minimal HTTP/1.1 client logic: URL parsing, request building,
//! response and header parsing, and redirect resolution. Only the I/O —
//! connecting and moving bytes — lives outside.

use vstd::prelude::*;
use vstd::string::*;

use crate::text::{
    chars_of, decimal_string, eq_ignore_ascii_case, find_char, find_in_range, find_space,
    find_space_in_range, has_prefix, is_space, lemma_split_at_first, lemma_split_no_sep,
    lemma_trim_left_skip, parse_decimal_u16, spec_decimal, spec_eq_ignore_case, spec_has_prefix,
    spec_is_space, spec_parse_u16, spec_split, spec_trim, subrange_vec, trim_bounds_range,
    trim_left,
};

verus! {

/// Why a URL or an HTTP response was rejected.
#[derive(Clone, Copy, Debug, PartialEq, Eq, Structural)]
pub enum HttpError {
    /// The URL names a port that is not a number in `0..=65535`.
    InvalidPort,
    /// The response holds no lines at all.
    EmptyResponse,
    /// The first response line has fewer than two fields.
    InvalidStatusLine,
    /// The second field of the status line is not a number.
    InvalidStatusCode,
}

/// A URL taken apart: host, port, path and whether it was `https`.
#[derive(Debug)]
pub struct ParsedUrl {
    pub host: String,
    pub port: u16,
    pub path: String,
    pub is_https: bool,
}

/// Strips the scheme prefix of a trimmed URL; a missing scheme means
/// plain HTTP.
pub open spec fn spec_url_scheme(t: Seq<char>) -> (bool, Seq<char>) {
    if spec_has_prefix(t, "https://"@) {
        (true, t.skip(8))
    } else if spec_has_prefix(t, "http://"@) {
        (false, t.skip(7))
    } else {
        (false, t)
    }
}

/// What a URL denotes: host, port (explicit, or the scheme's default),
/// path (`/` when absent) and the scheme. The one rejection is a port
/// that does not parse.
pub open spec fn spec_parse_url(s: Seq<char>) -> Result<(Seq<char>, u16, Seq<char>, bool), HttpError> {
    let t = spec_trim(s);
    let scheme = spec_url_scheme(t);
    let is_https = scheme.0;
    let rest = scheme.1;
    let default_port: u16 = if is_https {
        443
    } else {
        80
    };
    let slash = find_char(rest, '/');
    let host_port = if slash >= 0 {
        rest.take(slash)
    } else {
        rest
    };
    let path = if slash >= 0 {
        rest.skip(slash)
    } else {
        "/"@
    };
    let colon = find_char(host_port, ':');
    if colon < 0 {
        Ok((host_port, default_port, path, is_https))
    } else {
        match spec_parse_u16(host_port.skip(colon + 1)) {
            Some(p) => Ok((host_port.take(colon), p, path, is_https)),
            None => Err(HttpError::InvalidPort),
        }
    }
}

/// Takes a URL apart into host, port, path and scheme.
pub fn parse_url(url: &str) -> (r: Result<ParsedUrl, HttpError>)
    ensures
        match (r, spec_parse_url(url@)) {
            (Ok(u), Ok(t)) => u.host@ == t.0 && u.port == t.1 && u.path@ == t.2 && u.is_https
                == t.3,
            (Err(e1), Err(e2)) => e1 == e2,
            _ => false,
        },
{
    let cs = chars_of(url);
    let n = cs.len();
    let (lo, hi) = trim_bounds_range(&cs, 0, n);
    proof {
        assert(cs@.subrange(0, n as int) =~= cs@);
    }
    let tv = subrange_vec(&cs, lo, hi);
    let ghost t = spec_trim(url@);
    let https_p = chars_of("https://");
    let http_p = chars_of("http://");
    proof {
        reveal_strlit("https://");
        reveal_strlit("http://");
    }
    let (is_https, skip): (bool, usize) = if has_prefix(&tv, &https_p) {
        (true, 8)
    } else if has_prefix(&tv, &http_p) {
        (false, 7)
    } else {
        (false, 0)
    };
    let rest_lo = lo + skip;
    proof {
        assert(t.skip(skip as int) =~= cs@.subrange(rest_lo as int, hi as int));
        assert(spec_url_scheme(t).0 == is_https);
        assert(spec_url_scheme(t).1 == cs@.subrange(rest_lo as int, hi as int));
    }
    let ghost rest = spec_url_scheme(t).1;
    let default_port: u16 = if is_https {
        443
    } else {
        80
    };
    let (hp_hi, has_path) = match find_in_range(&cs, '/', rest_lo, hi) {
        Some(si) => (si, true),
        None => (hi, false),
    };
    proof {
        if has_path {
            assert(rest.take(find_char(rest, '/')) =~= cs@.subrange(rest_lo as int, hp_hi as int));
            assert(rest.skip(find_char(rest, '/')) =~= cs@.subrange(hp_hi as int, hi as int));
        } else {
            assert(rest =~= cs@.subrange(rest_lo as int, hp_hi as int));
        }
    }
    let ghost host_port = cs@.subrange(rest_lo as int, hp_hi as int);
    match find_in_range(&cs, ':', rest_lo, hp_hi) {
        None => {
            let host = url.substring_char(rest_lo, hp_hi).to_owned();
            let path = if has_path {
                url.substring_char(hp_hi, hi).to_owned()
            } else {
                String::from_str("/")
            };
            Ok(ParsedUrl { host, port: default_port, path, is_https })
        },
        Some(ci) => {
            let digits = subrange_vec(&cs, ci + 1, hp_hi);
            proof {
                assert(host_port.skip(find_char(host_port, ':') + 1) =~= cs@.subrange(
                    ci + 1,
                    hp_hi as int,
                ));
                assert(host_port.take(find_char(host_port, ':')) =~= cs@.subrange(
                    rest_lo as int,
                    ci as int,
                ));
            }
            match parse_decimal_u16(&digits) {
                None => Err(HttpError::InvalidPort),
                Some(port) => {
                    let host = url.substring_char(rest_lo, ci).to_owned();
                    let path = if has_path {
                        url.substring_char(hp_hi, hi).to_owned()
                    } else {
                        String::from_str("/")
                    };
                    Ok(ParsedUrl { host, port, path, is_https })
                },
            }
        },
    }
}

/// The one request the client sends: a GET for `path` against `host`,
/// closing the connection after the response.
pub open spec fn spec_http_request(host: Seq<char>, path: Seq<char>) -> Seq<char> {
    "GET "@ + path + " HTTP/1.1\r\nHost: "@ + host + "\r\nUser-Agent: netdiag/0.1.0\r\nConnection: close\r\n\r\n"@
}

/// Builds the GET request for one host and path.
pub fn build_http_request(host: &str, path: &str) -> (r: String)
    ensures
        r@ == spec_http_request(host@, path@),
{
    let mut s = String::new();
    s.append("GET ");
    s.append(path);
    s.append(" HTTP/1.1\r\nHost: ");
    s.append(host);
    s.append("\r\nUser-Agent: netdiag/0.1.0\r\nConnection: close\r\n\r\n");
    proof {
        assert(s@ =~= spec_http_request(host@, path@));
    }
    s
}

/// The family of an HTTP status code.
#[derive(Clone, Copy, Debug, PartialEq, Eq, Structural)]
pub enum StatusClass {
    /// 200 to 299.
    Success,
    /// 300 to 399.
    Redirect,
    /// 400 to 499.
    ClientError,
    /// 500 to 599.
    ServerError,
    /// Anything else.
    Other,
}

pub open spec fn spec_status_class(code: u16) -> StatusClass {
    if 200 <= code <= 299 {
        StatusClass::Success
    } else if 300 <= code <= 399 {
        StatusClass::Redirect
    } else if 400 <= code <= 499 {
        StatusClass::ClientError
    } else if 500 <= code <= 599 {
        StatusClass::ServerError
    } else {
        StatusClass::Other
    }
}

/// Sorts a status code into its family.
pub fn status_class(code: u16) -> (r: StatusClass)
    ensures
        r == spec_status_class(code),
{
    if 200 <= code && code <= 299 {
        StatusClass::Success
    } else if 300 <= code && code <= 399 {
        StatusClass::Redirect
    } else if 400 <= code && code <= 499 {
        StatusClass::ClientError
    } else if 500 <= code && code <= 599 {
        StatusClass::ServerError
    } else {
        StatusClass::Other
    }
}

/// How many redirects the client follows at most.
pub const MAX_REDIRECTS: usize = 5;

/// Whether the client follows a response instead of returning it: a
/// redirect status, following enabled, a Location header present, and the
/// redirect budget not yet spent.
pub fn should_follow_redirect(status: u16, follow: bool, redirects_followed: usize, has_location: bool) -> (r: bool)
    ensures
        r == (300 <= status <= 399 && follow && redirects_followed < MAX_REDIRECTS
            && has_location),
{
    300 <= status && status <= 399 && follow && redirects_followed < MAX_REDIRECTS && has_location
}

/// A line with its terminating carriage return, if any, removed.
pub open spec fn strip_cr(l: Seq<char>) -> Seq<char> {
    if l.len() > 0 && l.last() == '\r' {
        l.drop_last()
    } else {
        l
    }
}

pub open spec fn strip_views(ls: Seq<Seq<char>>) -> Seq<Seq<char>> {
    ls.map_values(|l: Seq<char>| strip_cr(l))
}

pub open spec fn string_views(ls: Seq<String>) -> Seq<Seq<char>> {
    ls.map_values(|x: String| x@)
}

/// The lines of a text: the segments between newlines, each without its
/// trailing carriage return; a final newline does not open a last, empty
/// line.
pub open spec fn spec_lines(s: Seq<char>) -> Seq<Seq<char>> {
    let parts = spec_split(s, '\n');
    let kept = if parts.last().len() == 0 {
        parts.drop_last()
    } else {
        parts
    };
    strip_views(kept)
}

/// Splits a response into its lines.
pub fn split_lines(text: &str) -> (r: Vec<String>)
    ensures
        string_views(r@) == spec_lines(text@),
{
    let cs = chars_of(text);
    let n = cs.len();
    let mut lines: Vec<String> = Vec::new();
    let ghost mut raw: Seq<Seq<char>> = Seq::empty();
    let mut start: usize = 0;
    let mut i: usize = 0;
    proof {
        assert(cs@.skip(0) =~= cs@);
        assert(raw + spec_split(cs@, '\n') =~= spec_split(cs@, '\n'));
        assert(string_views(lines@) =~= strip_views(raw));
    }
    while i < n
        invariant
            0 <= start <= i <= n,
            n == cs@.len(),
            cs@ == text@,
            forall|k: int| start <= k < i ==> cs@[k] != '\n',
            spec_split(cs@, '\n') == raw + spec_split(cs@.skip(start as int), '\n'),
            string_views(lines@) == strip_views(raw),
        decreases n - i,
    {
        if cs[i] == '\n' {
            let end = if i > start && cs[i - 1] == '\r' {
                i - 1
            } else {
                i
            };
            let piece = text.substring_char(start, end).to_owned();
            proof {
                let t = cs@.skip(start as int);
                lemma_split_at_first(t, '\n', i - start);
                assert(t.take(i - start) =~= cs@.subrange(start as int, i as int));
                assert(t.skip(i - start + 1) =~= cs@.skip(i + 1));
                let rawline = cs@.subrange(start as int, i as int);
                assert(strip_cr(rawline) =~= cs@.subrange(start as int, end as int));
                assert(raw + (seq![rawline] + spec_split(cs@.skip(i + 1), '\n')) =~= raw.push(
                    rawline,
                ) + spec_split(cs@.skip(i + 1), '\n'));
                assert(strip_views(raw.push(rawline)) =~= strip_views(raw).push(
                    strip_cr(rawline),
                ));
                assert(string_views(lines@.push(piece)) =~= string_views(lines@).push(piece@));
            }
            lines.push(piece);
            proof {
                raw = raw.push(cs@.subrange(start as int, i as int));
            }
            start = i + 1;
        }
        i = i + 1;
    }
    let ghost parts = spec_split(cs@, '\n');
    if start < n {
        let end = if cs[n - 1] == '\r' {
            n - 1
        } else {
            n
        };
        let piece = text.substring_char(start, end).to_owned();
        proof {
            let t = cs@.skip(start as int);
            lemma_split_no_sep(t, '\n');
            let rawline = cs@.subrange(start as int, n as int);
            assert(t =~= rawline);
            assert(raw + seq![rawline] =~= raw.push(rawline));
            assert(parts.last() == rawline);
            assert(strip_cr(rawline) =~= cs@.subrange(start as int, end as int));
            assert(strip_views(raw.push(rawline)) =~= strip_views(raw).push(strip_cr(rawline)));
            assert(string_views(lines@.push(piece)) =~= string_views(lines@).push(piece@));
        }
        lines.push(piece);
        proof {
            assert(string_views(lines@) =~= spec_lines(cs@));
        }
    } else {
        proof {
            let t = cs@.skip(start as int);
            assert(t.len() == 0);
            lemma_split_no_sep(t, '\n');
            assert(parts == raw.push(t));
            assert(parts.last().len() == 0);
            assert(parts.drop_last() =~= raw);
            assert(string_views(lines@) =~= spec_lines(cs@));
        }
    }
    lines
}

/// The status code of a response's first line: its second
/// whitespace-separated field, read as a number.
pub open spec fn spec_status_code(line: Seq<char>) -> Result<u16, HttpError> {
    let t1 = trim_left(line);
    if t1.len() == 0 {
        Err(HttpError::InvalidStatusLine)
    } else {
        let e0 = find_space(t1);
        if e0 < 0 {
            Err(HttpError::InvalidStatusLine)
        } else {
            let t2 = trim_left(t1.skip(e0));
            if t2.len() == 0 {
                Err(HttpError::InvalidStatusLine)
            } else {
                let e1 = find_space(t2);
                let f1 = if e1 < 0 {
                    t2
                } else {
                    t2.take(e1)
                };
                match spec_parse_u16(f1) {
                    Some(code) => Ok(code),
                    None => Err(HttpError::InvalidStatusCode),
                }
            }
        }
    }
}

/// Reads the status code out of a status line.
pub fn parse_status_line(line: &str) -> (r: Result<u16, HttpError>)
    ensures
        r == spec_status_code(line@),
{
    let cs = chars_of(line);
    let n = cs.len();
    let mut lo: usize = 0;
    while lo < n && is_space(cs[lo])
        invariant
            0 <= lo <= n,
            n == cs@.len(),
            forall|j: int| 0 <= j < lo ==> spec_is_space(#[trigger] cs@[j]),
        decreases n - lo,
    {
        lo = lo + 1;
    }
    proof {
        lemma_trim_left_skip(cs@, lo as int);
        assert(trim_left(cs@) =~= cs@.subrange(lo as int, n as int));
    }
    if lo == n {
        return Err(HttpError::InvalidStatusLine);
    }
    let ghost t1 = trim_left(cs@);
    match find_space_in_range(&cs, lo, n) {
        None => Err(HttpError::InvalidStatusLine),
        Some(sp) => {
            proof {
                assert(find_space(t1) == sp - lo);
                assert(t1.skip(sp - lo) =~= cs@.subrange(sp as int, n as int));
            }
            let mut lo2: usize = sp;
            while lo2 < n && is_space(cs[lo2])
                invariant
                    sp <= lo2 <= n,
                    n == cs@.len(),
                    forall|j: int| sp <= j < lo2 ==> spec_is_space(#[trigger] cs@[j]),
                decreases n - lo2,
            {
                lo2 = lo2 + 1;
            }
            proof {
                let mid = cs@.subrange(sp as int, n as int);
                assert(forall|j: int| 0 <= j < lo2 - sp ==> spec_is_space(#[trigger] mid[j]));
                lemma_trim_left_skip(mid, lo2 - sp);
                assert(mid.skip(lo2 - sp) =~= cs@.subrange(lo2 as int, n as int));
            }
            if lo2 == n {
                return Err(HttpError::InvalidStatusLine);
            }
            let ghost t2 = trim_left(t1.skip(sp - lo));
            proof {
                assert(t2 =~= cs@.subrange(lo2 as int, n as int));
            }
            let f1_hi = match find_space_in_range(&cs, lo2, n) {
                Some(e1) => {
                    proof {
                        assert(find_space(t2) == e1 - lo2);
                        assert(t2.take(e1 - lo2) =~= cs@.subrange(lo2 as int, e1 as int));
                    }
                    e1
                },
                None => n,
            };
            let tok = subrange_vec(&cs, lo2, f1_hi);
            match parse_decimal_u16(&tok) {
                Some(code) => Ok(code),
                None => Err(HttpError::InvalidStatusCode),
            }
        },
    }
}

/// What one header line denotes: the trimmed name before the first colon
/// and the trimmed value after it; a line without a colon denotes nothing.
pub open spec fn spec_header_line(l: Seq<char>) -> Option<(Seq<char>, Seq<char>)> {
    let c = find_char(l, ':');
    if c < 0 {
        None
    } else {
        Some((spec_trim(l.take(c)), spec_trim(l.skip(c + 1))))
    }
}

/// Reads one header line into its name and value.
pub fn parse_header_line(line: &str) -> (r: Option<(String, String)>)
    ensures
        match (r, spec_header_line(line@)) {
            (Some(p), Some(q)) => p.0@ == q.0 && p.1@ == q.1,
            (None, None) => true,
            _ => false,
        },
{
    let cs = chars_of(line);
    let n = cs.len();
    proof {
        assert(cs@.subrange(0, n as int) =~= cs@);
    }
    match find_in_range(&cs, ':', 0, n) {
        None => None,
        Some(ci) => {
            proof {
                assert(cs@.take(ci as int) =~= cs@.subrange(0, ci as int));
                assert(cs@.skip(ci + 1) =~= cs@.subrange(ci + 1, n as int));
            }
            let (nlo, nhi) = trim_bounds_range(&cs, 0, ci);
            let (vlo, vhi) = trim_bounds_range(&cs, ci + 1, n);
            let name = line.substring_char(nlo, nhi).to_owned();
            let value = line.substring_char(vlo, vhi).to_owned();
            Some((name, value))
        },
    }
}

/// Whether a header name is `Location`, up to case.
pub open spec fn is_location_name(name: Seq<char>) -> bool {
    spec_eq_ignore_case(name, "location"@)
}

/// Index of the first empty line, or -1 when there is none.
pub open spec fn find_blank(ls: Seq<Seq<char>>) -> int
    decreases ls.len(),
{
    if ls.len() == 0 {
        -1
    } else if ls[0].len() == 0 {
        0
    } else {
        let r = find_blank(ls.drop_first());
        if r < 0 {
            -1
        } else {
            r + 1
        }
    }
}

pub proof fn lemma_find_blank(ls: Seq<Seq<char>>)
    ensures
        find_blank(ls) == -1 || (0 <= find_blank(ls) < ls.len()),
        find_blank(ls) == -1 ==> forall|j: int| 0 <= j < ls.len() ==> (#[trigger] ls[j]).len()
            != 0,
        find_blank(ls) >= 0 ==> ls[find_blank(ls)].len() == 0,
        find_blank(ls) >= 0 ==> forall|j: int|
            0 <= j < find_blank(ls) ==> (#[trigger] ls[j]).len() != 0,
    decreases ls.len(),
{
    if ls.len() == 0 {
    } else if ls[0].len() == 0 {
    } else {
        let t = ls.drop_first();
        lemma_find_blank(t);
        let r = find_blank(t);
        if r >= 0 {
            assert forall|j: int| 0 <= j < r + 1 implies (#[trigger] ls[j]).len() != 0 by {
                if j > 0 {
                    assert(t[j - 1].len() != 0);
                }
            }
        } else {
            assert forall|j: int| 0 <= j < ls.len() implies (#[trigger] ls[j]).len() != 0 by {
                if j > 0 {
                    assert(t[j - 1].len() != 0);
                }
            }
        }
    }
}

/// The headers a run of lines denotes: each line's name and value, in
/// order, skipping lines without a colon.
pub open spec fn spec_headers_flat(ls: Seq<Seq<char>>) -> Seq<(Seq<char>, Seq<char>)>
    decreases ls.len(),
{
    if ls.len() == 0 {
        Seq::empty()
    } else {
        spec_headers_flat(ls.drop_last()) + match spec_header_line(ls.last()) {
            Some(h) => seq![h],
            None => Seq::empty(),
        }
    }
}

/// The value of the last `Location` header, if any.
pub open spec fn spec_location(hs: Seq<(Seq<char>, Seq<char>)>) -> Option<Seq<char>>
    decreases hs.len(),
{
    if hs.len() == 0 {
        None
    } else if is_location_name(hs.last().0) {
        Some(hs.last().1)
    } else {
        spec_location(hs.drop_last())
    }
}

pub open spec fn pair_views(hs: Seq<(String, String)>) -> Seq<(Seq<char>, Seq<char>)> {
    hs.map_values(|p: (String, String)| (p.0@, p.1@))
}

/// What a whole response denotes: its status code, the headers up to the
/// first empty line, and the last `Location` value among them.
pub open spec fn spec_parse_response(s: Seq<char>) -> Result<
    (u16, Seq<(Seq<char>, Seq<char>)>, Option<Seq<char>>),
    HttpError,
> {
    let lines = spec_lines(s);
    if lines.len() == 0 {
        Err(HttpError::EmptyResponse)
    } else {
        match spec_status_code(lines[0]) {
            Err(e) => Err(e),
            Ok(code) => {
                let body = lines.skip(1);
                let b = find_blank(body);
                let hl = if b < 0 {
                    body
                } else {
                    body.take(b)
                };
                let hs = spec_headers_flat(hl);
                Ok((code, hs, spec_location(hs)))
            },
        }
    }
}

/// A parsed response: the status code, every header before the body, and
/// the last `Location` header if one is present.
#[derive(Debug)]
pub struct HttpResponse {
    pub status: u16,
    pub headers: Vec<(String, String)>,
    pub location: Option<String>,
}

/// Reads a whole textual response: status line, then headers until the
/// first empty line.
pub fn parse_http_response(text: &str) -> (r: Result<HttpResponse, HttpError>)
    ensures
        match (r, spec_parse_response(text@)) {
            (Ok(resp), Ok(t)) => resp.status == t.0 && pair_views(resp.headers@) == t.1 && (match (
                resp.location,
                t.2,
            ) {
                (Some(l), Some(sl)) => l@ == sl,
                (None, None) => true,
                _ => false,
            }),
            (Err(e1), Err(e2)) => e1 == e2,
            _ => false,
        },
{
    let lines = split_lines(text);
    let ghost lv = spec_lines(text@);
    let nlines = lines.len();
    if nlines == 0 {
        return Err(HttpError::EmptyResponse);
    }
    proof {
        assert(lv[0] == lines@[0]@);
    }
    let status = match parse_status_line(lines[0].as_str()) {
        Err(e) => {
            return Err(e);
        },
        Ok(code) => code,
    };
    let mut k: usize = 1;
    while k < nlines && !line_is_empty(&lines, k)
        invariant
            1 <= k <= nlines,
            nlines == lines@.len(),
            string_views(lines@) == lv,
            forall|j: int| 1 <= j < k ==> (#[trigger] lv[j]).len() != 0,
        decreases nlines - k,
    {
        k = k + 1;
    }
    let ghost body = lv.skip(1);
    let ghost hl = lv.subrange(1, k as int);
    proof {
        lemma_find_blank(body);
        let b = find_blank(body);
        if k < nlines {
            assert(lv[k as int].len() == 0);
            assert(body[k - 1].len() == 0);
            if b == -1 {
                assert(body[k - 1].len() != 0);
            }
            assert(b >= 0);
            if b < k - 1 {
                assert(lv[b + 1].len() != 0);
                assert(body[b].len() == 0);
            }
            if b > k - 1 {
                assert(body[k - 1].len() != 0);
            }
            assert(b == k - 1);
            assert(body.take(b) =~= hl);
        } else {
            if b >= 0 {
                assert(body[b].len() == 0);
                assert(lv[b + 1].len() != 0);
            }
            assert(b == -1);
            assert(body =~= hl);
        }
    }
    let mut headers: Vec<(String, String)> = Vec::new();
    let mut location: Option<String> = None;
    let mut i: usize = 1;
    proof {
        assert(lv.subrange(1, 1) =~= Seq::<Seq<char>>::empty());
        assert(pair_views(headers@) =~= spec_headers_flat(lv.subrange(1, 1)));
    }
    while i < k
        invariant
            1 <= i <= k <= nlines,
            nlines == lines@.len(),
            string_views(lines@) == lv,
            pair_views(headers@) == spec_headers_flat(lv.subrange(1, i as int)),
            location matches Some(l) ==> spec_location(spec_headers_flat(lv.subrange(1, i as int)))
                == Some(l@),
            location is None ==> spec_location(spec_headers_flat(lv.subrange(1, i as int)))
                is None,
        decreases k - i,
    {
        let ghost pre = lv.subrange(1, i as int);
        let ghost cur = lv.subrange(1, i + 1);
        proof {
            assert(cur.drop_last() =~= pre);
            assert(cur.last() == lv[i as int]);
            assert(lv[i as int] == lines@[i as int]@);
        }
        match parse_header_line(lines[i].as_str()) {
            None => {
                proof {
                    assert(spec_headers_flat(cur) =~= spec_headers_flat(pre));
                }
            },
            Some((name, value)) => {
                let ncs = chars_of(name.as_str());
                let lit = chars_of("location");
                let ghost h = spec_header_line(lv[i as int])->0;
                proof {
                    assert(spec_headers_flat(cur) =~= spec_headers_flat(pre) + seq![h]);
                    assert((spec_headers_flat(pre) + seq![h]).drop_last() =~= spec_headers_flat(
                        pre,
                    ));
                    assert(pair_views(headers@.push((name, value))) =~= pair_views(headers@).push(
                        (name@, value@),
                    ));
                }
                if eq_ignore_ascii_case(&ncs, &lit) {
                    location = Some(value.clone());
                } else {
                    proof {
                        assert(!is_location_name(h.0));
                    }
                }
                headers.push((name, value));
            },
        }
        i = i + 1;
    }
    proof {
        assert(lv.subrange(1, k as int) == hl);
    }
    Ok(HttpResponse { status, headers, location })
}

/// Reads whether one line is empty.
fn line_is_empty(lines: &Vec<String>, i: usize) -> (r: bool)
    requires
        i < lines@.len(),
    ensures
        r == (lines@[i as int]@.len() == 0),
{
    lines[i].as_str().is_empty()
}

/// A path with every trailing slash removed.
pub open spec fn trim_trailing_slashes(s: Seq<char>) -> Seq<char>
    decreases s.len(),
{
    if s.len() > 0 && s.last() == '/' {
        trim_trailing_slashes(s.drop_last())
    } else {
        s
    }
}

proof fn lemma_trim_trailing_slashes(s: Seq<char>, i: int)
    requires
        0 <= i <= s.len(),
        forall|j: int| i <= j < s.len() ==> s[j] == '/',
        i == 0 || s[i - 1] != '/',
    ensures
        trim_trailing_slashes(s) == s.take(i),
    decreases s.len() - i,
{
    if i == s.len() {
        assert(s.take(i) =~= s);
    } else {
        assert(s.last() == '/');
        let t = s.drop_last();
        lemma_trim_trailing_slashes(t, i);
        assert(t.take(i) =~= s.take(i));
    }
}

/// Where a redirect leads: an absolute `Location` stands by itself; a
/// relative one is joined to the current URL — its scheme, its host, its
/// port unless that is the scheme's default, and its path with trailing
/// slashes dropped.
pub open spec fn spec_resolve_redirect(cur: Seq<char>, loc: Seq<char>) -> Result<
    Seq<char>,
    HttpError,
> {
    if spec_has_prefix(loc, "http://"@) || spec_has_prefix(loc, "https://"@) {
        Ok(loc)
    } else {
        match spec_parse_url(cur) {
            Err(e) => Err(e),
            Ok((host, port, path, https)) => {
                let scheme = if https {
                    "https"@
                } else {
                    "http"@
                };
                let authority = if (https && port == 443) || (!https && port == 80) {
                    host
                } else {
                    host + ":"@ + spec_decimal(port as nat)
                };
                let new_path = if loc.len() > 0 && loc[0] == '/' {
                    loc
                } else {
                    let t = trim_trailing_slashes(path);
                    if t.len() == 0 {
                        "/"@ + loc
                    } else {
                        t + "/"@ + loc
                    }
                };
                Ok(scheme + "://"@ + authority + new_path)
            },
        }
    }
}

/// Joins a `Location` header onto the URL it redirects from.
#[verifier::rlimit(50)]
pub fn resolve_redirect(current_url: &str, location: &str) -> (r: Result<String, HttpError>)
    ensures
        match (r, spec_resolve_redirect(current_url@, location@)) {
            (Ok(u), Ok(s)) => u@ == s,
            (Err(e1), Err(e2)) => e1 == e2,
            _ => false,
        },
{
    let lcs = chars_of(location);
    let http_p = chars_of("http://");
    let https_p = chars_of("https://");
    if has_prefix(&lcs, &http_p) || has_prefix(&lcs, &https_p) {
        return Ok(location.to_owned());
    }
    let base = match parse_url(current_url) {
        Err(e) => {
            return Err(e);
        },
        Ok(u) => u,
    };
    let mut out = String::new();
    if base.is_https {
        out.append("https");
    } else {
        out.append("http");
    }
    out.append("://");
    out.append(base.host.as_str());
    let default = (base.is_https && base.port == 443) || (!base.is_https && base.port == 80);
    if !default {
        out.append(":");
        let num = decimal_string(base.port as u128);
        out.append(num.as_str());
    }
    let starts_slash = if lcs.len() > 0 {
        lcs[0] == '/'
    } else {
        false
    };
    if starts_slash {
        out.append(location);
        proof {
            assert(out@ =~= spec_resolve_redirect(current_url@, location@)->Ok_0);
        }
        return Ok(out);
    }
    let pcs = chars_of(base.path.as_str());
    let mut cut = pcs.len();
    while cut > 0 && is_slash(&pcs, cut - 1)
        invariant
            0 <= cut <= pcs@.len(),
            forall|j: int| cut <= j < pcs@.len() ==> pcs@[j] == '/',
        decreases cut,
    {
        cut = cut - 1;
    }
    proof {
        lemma_trim_trailing_slashes(pcs@, cut as int);
    }
    if cut == 0 {
        out.append("/");
        out.append(location);
        proof {
            assert(trim_trailing_slashes(base.path@).len() == 0);
            assert(out@ =~= spec_resolve_redirect(current_url@, location@)->Ok_0);
        }
        Ok(out)
    } else {
        let kept = base.path.as_str().substring_char(0, cut);
        out.append(kept);
        out.append("/");
        out.append(location);
        proof {
            assert(kept@ =~= trim_trailing_slashes(base.path@));
            assert(out@ =~= spec_resolve_redirect(current_url@, location@)->Ok_0);
        }
        Ok(out)
    }
}

/// Reads whether one character is a slash.
fn is_slash(v: &Vec<char>, i: usize) -> (r: bool)
    requires
        i < v@.len(),
    ensures
        r == (v@[i as int] == '/'),
{
    v[i] == '/'
}

} // verus!
