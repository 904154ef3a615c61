//! Serving the embedded web interface: which file a request path asks for,
//! and the status, headers and body of the answer. Looking the file up
//! among the embedded assets, and writing the answer, are the application's.
use vstd::prelude::*;
use vstd::string::*;
use core::marker::PhantomData;
use crate::db::opt_view;
use crate::text::{chars_of, chars_equal, string_of, u64_to_string, nat_digits};

verus! {

/// The method of a request, as far as serving files tells methods apart.
#[derive(Debug, Clone, Copy, PartialEq, Eq, Structural)]
pub enum RequestMethod {
    Get,
    Head,
    Other,
}

/// The path with every leading `/` removed, as `trim_start_matches('/')`
/// gives it.
pub open spec fn strip_leading_slashes(s: Seq<char>) -> Seq<char>
    decreases s.len(),
{
    if s.len() > 0 && s[0] == '/' {
        strip_leading_slashes(s.drop_first())
    } else {
        s
    }
}

/// What `Utf8Path::file_name` gives for a path: its final component, none
/// where the path ends in `..` or has no component.
pub uninterp spec fn utf8_file_name(path: Seq<char>) -> Option<Seq<char>>;

/// The position of the last `.` in a text.
pub open spec fn last_dot(s: Seq<char>) -> Option<int>
    decreases s.len(),
{
    if s.len() == 0 {
        None
    } else if s.last() == '.' {
        Some(s.len() - 1)
    } else {
        last_dot(s.drop_last())
    }
}

/// The extension of a file name, as `Path::extension` documents it: none
/// without a `.`, none where the only `.` begins the name, else what
/// follows the last `.`.
pub open spec fn extension_of(name: Seq<char>) -> Option<Seq<char>> {
    match last_dot(name) {
        Some(i) => if i == 0 {
            None
        } else {
            Some(name.skip(i + 1))
        },
        None => None,
    }
}

/// `Utf8Path::new(path).file_name()`. Only the name of the result is stated.
#[verifier::external_body]
fn file_name_of(path: &str) -> (r: Option<String>)
    ensures
        opt_view(r) == utf8_file_name(path@),
{
    camino::Utf8Path::new(path).file_name().map(|s| s.to_string())
}

/// `Utf8Path::new(path).extension()`: the extension of the file name, as
/// documented.
#[verifier::external_body]
fn extension_of_path(path: &str) -> (r: Option<String>)
    ensures
        opt_view(r) == match utf8_file_name(path@) {
            Some(n) => extension_of(n),
            None => None,
        },
{
    camino::Utf8Path::new(path).extension().map(|s| s.to_string())
}

/// The MIME type that `mime_guess` gives a path (from its extension, with
/// `application/octet-stream` where it knows none).
pub uninterp spec fn guessed_mime(path: Seq<char>) -> Seq<char>;

/// `mime_guess::from_path(path).first_or_octet_stream()` as text. Only the
/// name of the result is stated.
#[verifier::external_body]
fn mime_of_path(path: &str) -> (r: String)
    ensures
        r@ == guessed_mime(path@),
{
    mime_guess::from_path(path).first_or_octet_stream().to_string()
}

/// The character of a six-bit value in the URL-safe base64 alphabet of
/// RFC 4648: `A`-`Z`, `a`-`z`, `0`-`9`, `-`, `_`.
pub open spec fn base64url_char(v: int) -> char {
    if v < 26 {
        (65 + v) as char
    } else if v < 52 {
        (97 + v - 26) as char
    } else if v < 62 {
        (48 + v - 52) as char
    } else if v == 62 {
        '-'
    } else {
        '_'
    }
}

/// The unpadded URL-safe base64 text of some bytes (RFC 4648, section 5,
/// without `=`): each group of three bytes as four characters of six bits
/// each, a last group of one or two bytes as two or three characters.
pub open spec fn base64url_nopad(b: Seq<u8>) -> Seq<char>
    decreases b.len(),
{
    if b.len() == 0 {
        Seq::empty()
    } else if b.len() == 1 {
        seq![base64url_char((b[0] as int) / 4), base64url_char(((b[0] as int) % 4) * 16)]
    } else if b.len() == 2 {
        seq![
            base64url_char((b[0] as int) / 4),
            base64url_char(((b[0] as int) % 4) * 16 + (b[1] as int) / 16),
            base64url_char(((b[1] as int) % 16) * 4),
        ]
    } else {
        seq![
            base64url_char((b[0] as int) / 4),
            base64url_char(((b[0] as int) % 4) * 16 + (b[1] as int) / 16),
            base64url_char(((b[1] as int) % 16) * 4 + (b[2] as int) / 64),
            base64url_char((b[2] as int) % 64),
        ] + base64url_nopad(b.skip(3))
    }
}

/// `data_encoding::BASE64URL_NOPAD.encode(bytes)`: the unpadded URL-safe
/// base64 text of the bytes.
#[verifier::external_body]
fn encode_base64url(bytes: &[u8]) -> (r: String)
    ensures
        r@ == base64url_nopad(bytes@),
{
    data_encoding::BASE64URL_NOPAD.encode(bytes)
}

/// The RFC 2822 date, in GMT, of a time in whole seconds since the epoch;
/// none where chrono has no such time.
pub uninterp spec fn gmt_rfc2822(secs: i64) -> Option<Seq<char>>;

/// Whether chrono can write the RFC 2822 date of a modification time:
/// `to_rfc2822` panics for years past 9999 (from 253402300800 seconds on),
/// and `timestamp_opt` gives no time at all past chrono's last date
/// (8210266876799 seconds, the end of the year 262142).
pub open spec fn rfc2822_writable(t: u64) -> bool {
    t <= 253402300799 || t > 8210266876799
}

/// `Utc.timestamp_opt(secs, 0).earliest()` in the GMT zone of `chrono_tz`,
/// as RFC 2822 text. Only the name of the result is stated.
#[verifier::external_body]
fn rfc2822_of_seconds(secs: i64) -> (r: Option<String>)
    requires
        0 <= secs,
        rfc2822_writable(secs as u64),
    ensures
        opt_view(r) == gmt_rfc2822(secs),
{
    chrono::TimeZone::timestamp_opt(&chrono::Utc, secs, 0).earliest().map(
        |dt| dt.with_timezone(&chrono_tz::GMT).to_rfc2822(),
    )
}

/// The file that a request path asks for: the path without its leading
/// slashes, with `.html` added where its file name has no extension, and
/// `index.html` added where it has no file name.
pub open spec fn file_path_of(uri_path: Seq<char>) -> Seq<char> {
    let p = strip_leading_slashes(uri_path);
    match utf8_file_name(p) {
        Some(n) => if extension_of(n) is None {
            p + ".html"@
        } else {
            p
        },
        None => p + "index.html"@,
    }
}

/// An embedded file, as far as the answer depends on it: its length, its
/// SHA-256 digest and its modification time in seconds, where known.
#[derive(Debug, Clone)]
pub struct EmbeddedFile {
    pub len: usize,
    pub sha256: Vec<u8>,
    pub last_modified: Option<u64>,
}

/// What the answer carries: nothing, or the file's content.
#[derive(Debug, Clone, Copy, PartialEq, Eq, Structural)]
pub enum ResponseBody {
    Empty,
    File,
}

/// The answer to a request: status, headers in order (lower-case names),
/// and body.
#[derive(Debug, Clone)]
pub struct ResponsePlan {
    pub status: u16,
    pub headers: Vec<(String, String)>,
    pub body: ResponseBody,
}

pub open spec fn headers_view(h: Seq<(String, String)>) -> Seq<(Seq<char>, Seq<char>)> {
    h.map_values(|p: (String, String)| (p.0@, p.1@))
}

/// The entity tag of a file: its digest in unpadded URL-safe base64.
pub open spec fn etag_of(f: EmbeddedFile) -> Seq<char> {
    base64url_nopad(f.sha256@)
}

/// The `Last-Modified` text of a modification time: none where there is
/// none, or it does not fit an `i64`, or chrono has no such time.
pub open spec fn last_modified_text(ts: Option<u64>) -> Option<Seq<char>> {
    match ts {
        Some(t) => if t <= i64::MAX {
            gmt_rfc2822(t as i64)
        } else {
            None
        },
        None => None,
    }
}

/// The headers sent with a file found: content type, length, entity tag,
/// cache control, and the modification date where there is one.
pub open spec fn file_headers(path: Seq<char>, f: EmbeddedFile) -> Seq<(Seq<char>, Seq<char>)> {
    seq![
        ("content-type"@, guessed_mime(path)),
        ("content-length"@, nat_digits(f.len as nat)),
        ("etag"@, etag_of(f)),
        ("cache-control"@, "max-age=0, must-revalidate"@),
    ] + match last_modified_text(f.last_modified) {
        Some(t) => seq![("last-modified"@, t)],
        None => Seq::empty(),
    }
}

/// The answer: 405 with the allowed methods for a method other than GET
/// and HEAD; 404 where no file is found; else the file's headers, with 304
/// and no body where the request's `If-None-Match` is the file's entity
/// tag, 200 and no body for HEAD, and 200 with the file otherwise.
pub open spec fn response_of(
    method: RequestMethod,
    path: Seq<char>,
    file: Option<EmbeddedFile>,
    if_none_match: Option<Seq<char>>,
) -> (u16, Seq<(Seq<char>, Seq<char>)>, ResponseBody) {
    match method {
        RequestMethod::Other => (405, seq![("allow"@, "GET, HEAD, OPTIONS"@)], ResponseBody::Empty),
        _ => match file {
            None => (404, Seq::empty(), ResponseBody::Empty),
            Some(f) => if if_none_match == Some(etag_of(f)) {
                (304, file_headers(path, f), ResponseBody::Empty)
            } else if method == RequestMethod::Head {
                (200, file_headers(path, f), ResponseBody::Empty)
            } else {
                (200, file_headers(path, f), ResponseBody::File)
            },
        },
    }
}

fn push_header(headers: &mut Vec<(String, String)>, name: &str, value: String)
    ensures
        headers_view(final(headers)@) == headers_view(old(headers)@).push((name@, value@)),
{
    let ghost prev = headers@;
    headers.push((String::from_str(name), value));
    assert(headers_view(headers@) =~= headers_view(prev).push((name@, value@)));
}

/// Serves the files of an embedded asset folder `E`.
#[derive(Debug)]
pub struct EmbedServer<E> {
    embed: PhantomData<E>,
}

impl<E> Clone for EmbedServer<E> {
    fn clone(&self) -> (r: Self) {
        EmbedServer::new()
    }
}

impl<E> EmbedServer<E> {
    pub fn new() -> (r: Self) {
        EmbedServer { embed: PhantomData }
    }

    /// The file that a request path asks for.
    pub fn file_path(&self, uri_path: &str) -> (r: String)
        ensures
            r@ == file_path_of(uri_path@),
    {
        let chars = chars_of(uri_path);
        let mut i: usize = 0;
        assert(chars@.skip(0) =~= chars@);
        while i < chars.len() && chars[i] == '/'
            invariant
                0 <= i <= chars@.len(),
                chars@ == uri_path@,
                strip_leading_slashes(chars@) == strip_leading_slashes(chars@.skip(i as int)),
            decreases chars@.len() - i,
        {
            assert(chars@.skip(i as int).drop_first() =~= chars@.skip(i + 1));
            i = i + 1;
        }
        let mut rest: Vec<char> = Vec::new();
        let mut j: usize = i;
        while j < chars.len()
            invariant
                i <= j <= chars@.len(),
                rest@ == chars@.subrange(i as int, j as int),
            decreases chars@.len() - j,
        {
            rest.push(chars[j]);
            assert(rest@ =~= chars@.subrange(i as int, j + 1));
            j = j + 1;
        }
        assert(rest@ =~= chars@.skip(i as int));
        let mut path = string_of(rest.as_slice());
        let ghost p = path@;
        assert(p == strip_leading_slashes(uri_path@));
        match file_name_of(path.as_str()) {
            Some(_) => {
                if extension_of_path(path.as_str()).is_none() {
                    path.append(".html");
                }
            },
            None => {
                path.append("index.html");
            },
        }
        path
    }

    /// The answer to a request for `file_path` by `method`, given the file
    /// found there (if any) and the request's `If-None-Match` header.
    pub fn respond(
        &self,
        method: RequestMethod,
        file_path: &str,
        file: Option<&EmbeddedFile>,
        if_none_match: Option<&str>,
    ) -> (r: ResponsePlan)
        requires
            method != RequestMethod::Other ==> (file matches Some(f) ==> (f.last_modified matches Some(
                t,
            ) ==> rfc2822_writable(t))),
        ensures
            (r.status, headers_view(r.headers@), r.body) == response_of(
                method,
                file_path@,
                match file {
                    Some(f) => Some(*f),
                    None => None,
                },
                match if_none_match {
                    Some(h) => Some(h@),
                    None => None,
                },
            ),
    {
        let mut headers: Vec<(String, String)> = Vec::new();
        assert(headers_view(headers@) =~= Seq::<(Seq<char>, Seq<char>)>::empty());
        if method == RequestMethod::Other {
            push_header(&mut headers, "allow", String::from_str("GET, HEAD, OPTIONS"));
            assert(headers_view(headers@) =~= seq![("allow"@, "GET, HEAD, OPTIONS"@)]);
            return ResponsePlan { status: 405, headers, body: ResponseBody::Empty };
        }
        let f = match file {
            Some(f) => f,
            None => {
                return ResponsePlan { status: 404, headers, body: ResponseBody::Empty };
            },
        };
        push_header(&mut headers, "content-type", mime_of_path(file_path));
        push_header(&mut headers, "content-length", u64_to_string(f.len as u64));
        let etag = encode_base64url(f.sha256.as_slice());
        push_header(&mut headers, "etag", etag.clone());
        push_header(&mut headers, "cache-control", String::from_str("max-age=0, must-revalidate"));
        let last_modified = match f.last_modified {
            Some(t) => if t <= 9223372036854775807u64 {
                rfc2822_of_seconds(t as i64)
            } else {
                None
            },
            None => None,
        };
        match last_modified {
            Some(text) => push_header(&mut headers, "last-modified", text),
            None => {},
        }
        assert(headers_view(headers@) =~= file_headers(file_path@, *f));
        let matched = match if_none_match {
            Some(h) => {
                let a = chars_of(etag.as_str());
                let b = chars_of(h);
                chars_equal(a.as_slice(), b.as_slice())
            },
            None => false,
        };
        if matched {
            ResponsePlan { status: 304, headers, body: ResponseBody::Empty }
        } else if method == RequestMethod::Head {
            ResponsePlan { status: 200, headers, body: ResponseBody::Empty }
        } else {
            ResponsePlan { status: 200, headers, body: ResponseBody::File }
        }
    }
}

/// The file that a request asks for is never an absolute path: it does not
/// begin with `/`.
pub proof fn lemma_file_path_relative(uri_path: Seq<char>)
    ensures
        file_path_of(uri_path).len() > 0 ==> file_path_of(uri_path)[0] != '/',
{
    lemma_strip_no_leading_slash(uri_path);
    let p = strip_leading_slashes(uri_path);
    if p.len() > 0 {
        assert((p + ".html"@)[0] == p[0]);
        assert((p + "index.html"@)[0] == p[0]);
    } else {
        assert(p + ".html"@ =~= ".html"@);
        assert(p + "index.html"@ =~= "index.html"@);
        reveal_strlit(".html");
        reveal_strlit("index.html");
    }
}

proof fn lemma_strip_no_leading_slash(s: Seq<char>)
    ensures
        strip_leading_slashes(s).len() > 0 ==> strip_leading_slashes(s)[0] != '/',
    decreases s.len(),
{
    if s.len() > 0 && s[0] == '/' {
        lemma_strip_no_leading_slash(s.drop_first());
    }
}

} // verus!
