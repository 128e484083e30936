//! Responses: what a handler builds, and the bytes that go back on the wire.
use std::collections::HashMap;
use vstd::prelude::*;
use vstd::utf8::encode_utf8;

use crate::json::{compact_json, entries_of, status_members, status_text, JsonObject};
use crate::request::option_view;
use crate::text::{decimal, push_decimal};

verus! {

/// A response as a handler builds it: a status code, headers with unique
/// names, and an optional body.
#[derive(Debug)]
pub struct HttpResponse {
    pub status_code: u16,
    pub headers: HashMap<String, String>,
    pub body: Option<String>,
}

/// `h` has a header named `name` whose value is `value`.
pub open spec fn has_header(h: Map<String, String>, name: Seq<char>, value: Seq<char>) -> bool {
    exists|k: String| #[trigger] h.contains_key(k) && k@ == name && h[k]@ == value
}

/// A reply with no headers whose body is the compact JSON object with the
/// members `status_code: code` and `message: message`.
pub open spec fn is_status_reply(r: HttpResponse, code: u16, message: Seq<char>) -> bool {
    &&& r.status_code == code
    &&& r.headers@ == Map::<String, String>::empty()
    &&& r.body matches Some(b) && exists|m: JsonObject|
        entries_of(m) == status_members(code, message) && b@ == #[trigger] compact_json(m)
}

/// Relies on `HashMap::insert`: the header named `k` is set to `v`, any
/// earlier value of it replaced. (vstd states this only for key types whose
/// hashing it models, which `String` is not.)
#[verifier::external_body]
pub(crate) fn set_header(h: &mut HashMap<String, String>, k: String, v: String)
    ensures
        final(h)@ == old(h)@.insert(k, v),
{
    h.insert(k, v);
}

impl HttpResponse {
    pub fn new(status_code: u16, headers: HashMap<String, String>, body: Option<String>) -> (r:
        Self)
        ensures
            r.status_code == status_code,
            r.headers == headers,
            r.body == body,
    {
        HttpResponse { status_code, headers, body }
    }
}

/// A reply with no headers and the JSON status object as its body.
pub fn status_reply(code: u16, message: &str) -> (r: HttpResponse)
    ensures
        is_status_reply(r, code, message@),
{
    HttpResponse::new(code, HashMap::new(), Some(status_text(code, message)))
}

/// The reason phrase sent after a status code.
pub open spec fn reason(code: u16) -> Seq<char> {
    if code == 100 {
        "Continue"@
    } else if code == 101 {
        "Switching Protocols"@
    } else if code == 200 {
        "OK"@
    } else if code == 201 {
        "Created"@
    } else if code == 202 {
        "Accepted"@
    } else if code == 204 {
        "No Content"@
    } else if code == 300 {
        "Multiple Choices"@
    } else if code == 301 {
        "Moved Permanently"@
    } else if code == 302 {
        "Found"@
    } else if code == 304 {
        "Not Modified"@
    } else if code == 400 {
        "Bad Request"@
    } else if code == 401 {
        "Unauthorized"@
    } else if code == 403 {
        "Forbidden"@
    } else if code == 404 {
        "Not Found"@
    } else if code == 405 {
        "Method Not Allowed"@
    } else if code == 500 {
        "Internal Server Error"@
    } else if code == 501 {
        "Not Implemented"@
    } else if code == 502 {
        "Bad Gateway"@
    } else if code == 503 {
        "Service Unavailable"@
    } else {
        "Unknown Status"@
    }
}

pub fn reason_phrase(code: u16) -> (r: &'static str)
    ensures
        r@ == reason(code),
{
    match code {
        100 => "Continue",
        101 => "Switching Protocols",
        200 => "OK",
        201 => "Created",
        202 => "Accepted",
        204 => "No Content",
        300 => "Multiple Choices",
        301 => "Moved Permanently",
        302 => "Found",
        304 => "Not Modified",
        400 => "Bad Request",
        401 => "Unauthorized",
        403 => "Forbidden",
        404 => "Not Found",
        405 => "Method Not Allowed",
        500 => "Internal Server Error",
        501 => "Not Implemented",
        502 => "Bad Gateway",
        503 => "Service Unavailable",
        _ => "Unknown Status",
    }
}

/// The header pairs as character sequences.
pub open spec fn pair_views(e: Seq<(String, String)>) -> Seq<(Seq<char>, Seq<char>)> {
    e.map_values(|p: (String, String)| (p.0@, p.1@))
}

/// `e` lists the headers of `m`: each once, each with its value.
pub open spec fn lists_headers(e: Seq<(String, String)>, m: Map<String, String>) -> bool {
    &&& forall|i: int| 0 <= i < e.len() ==> #[trigger] m.contains_key(e[i].0) && m[e[i].0] == e[i].1
    &&& forall|k: String| #[trigger] m.contains_key(k) ==> exists|i: int| 0 <= i < e.len() && e[i].0 == k
    &&& forall|i: int, j: int| 0 <= i < j < e.len() ==> e[i].0 != e[j].0
}

/// Relies on `HashMap::iter`: every header once, in an order that std leaves
/// open; the pairs are copied out.
#[verifier::external_body]
fn header_list(h: &HashMap<String, String>) -> (r: Vec<(String, String)>)
    ensures
        lists_headers(r@, h@),
{
    h.iter().map(|(k, v)| (k.clone(), v.clone())).collect()
}

pub open spec fn names_header(e: Seq<(Seq<char>, Seq<char>)>, name: Seq<char>) -> bool {
    exists|i: int| 0 <= i < e.len() && #[trigger] e[i].0 == name
}

/// The length in bytes of the UTF-8 encoding of `b`.
pub open spec fn byte_len(b: Seq<char>) -> nat {
    (encode_utf8(b).len() as usize) as nat
}

/// The headers that go on the wire: those given, and a `Content-Length` for
/// a body when none was given.
pub open spec fn wire_headers(e: Seq<(Seq<char>, Seq<char>)>, body: Option<Seq<char>>) -> Seq<
    (Seq<char>, Seq<char>),
> {
    match body {
        Some(b) => if names_header(e, "Content-Length"@) {
            e
        } else {
            e.push(("Content-Length"@, decimal(byte_len(b))))
        },
        None => e,
    }
}

/// One `Name: Value` line per header, in order.
pub open spec fn header_block(e: Seq<(Seq<char>, Seq<char>)>) -> Seq<char>
    decreases e.len(),
{
    if e.len() == 0 {
        Seq::empty()
    } else {
        header_block(e.drop_last()) + e.last().0 + ": "@ + e.last().1 + "\r\n"@
    }
}

/// The bytes of a response, as text: status line, header lines, blank line, body.
pub open spec fn response_text(
    code: u16,
    e: Seq<(Seq<char>, Seq<char>)>,
    body: Option<Seq<char>>,
) -> Seq<char> {
    "HTTP/1.1 "@ + decimal(code as nat) + " "@ + reason(code) + "\r\n"@ + header_block(
        wire_headers(e, body),
    ) + "\r\n"@ + match body {
        Some(b) => b,
        None => Seq::empty(),
    }
}

fn append_header(s: &mut String, k: &str, v: &str)
    ensures
        final(s)@ == old(s)@ + k@ + ": "@ + v@ + "\r\n"@,
{
    s.append(k);
    s.append(": ");
    s.append(v);
    s.append("\r\n");
}

/// The wire text of a response whose headers are `headers`, in that order.
pub fn render_response(code: u16, headers: &Vec<(String, String)>, body: &Option<String>) -> (r:
    String)
    ensures
        r@ == response_text(code, pair_views(headers@), option_view(*body)),
{
    let ghost e = pair_views(headers@);
    let mut s = String::from_str("HTTP/1.1 ");
    push_decimal(&mut s, code as u64);
    s.append(" ");
    s.append(reason_phrase(code));
    s.append("\r\n");
    let ghost status_line = s@;
    let length_name = String::from_str("Content-Length");
    let mut has_length = false;
    let mut i: usize = 0;
    while i < headers.len()
        invariant
            i <= headers@.len(),
            e == pair_views(headers@),
            length_name@ == "Content-Length"@,
            s@ == status_line + header_block(e.subrange(0, i as int)),
            has_length == names_header(e.subrange(0, i as int), "Content-Length"@),
        decreases headers@.len() - i,
    {
        let ghost before = s@;
        append_header(&mut s, headers[i].0.as_str(), headers[i].1.as_str());
        let same = headers[i].0 == length_name;
        proof {
            let sub = e.subrange(0, i + 1);
            assert(sub.drop_last() =~= e.subrange(0, i as int));
            assert(s@ =~= status_line + header_block(sub));
            if names_header(sub, "Content-Length"@) {
                let j = choose|j: int| 0 <= j < sub.len() && #[trigger] sub[j].0 == "Content-Length"@;
                if j < i {
                    assert(e.subrange(0, i as int)[j].0 == "Content-Length"@);
                }
            }
            if has_length {
                let j = choose|j: int|
                    0 <= j < i && #[trigger] e.subrange(0, i as int)[j].0 == "Content-Length"@;
                assert(sub[j].0 == "Content-Length"@);
            }
            if same {
                assert(sub[i as int].0 == "Content-Length"@);
            }
        }
        has_length = has_length || same;
        i += 1;
    }
    proof {
        assert(e.subrange(0, i as int) =~= e);
    }
    match body {
        Some(b) => {
            if !has_length {
                let ghost before = s@;
                s.append("Content-Length");
                s.append(": ");
                push_decimal(&mut s, b.as_str().len() as u64);
                s.append("\r\n");
                proof {
                    let w = e.push(("Content-Length"@, decimal(byte_len(b@))));
                    assert(w.drop_last() =~= e);
                    assert(s@ =~= status_line + header_block(w));
                }
            }
            s.append("\r\n");
            s.append(b.as_str());
        },
        None => {
            s.append("\r\n");
        },
    }
    proof {
        assert(s@ =~= response_text(code, e, option_view(*body)));
    }
    s
}

impl HttpResponse {
    /// The wire text of this response; the headers come in the order in which
    /// the map hands them out.
    pub fn to_string(&self) -> (r: String)
        ensures
            exists|e: Seq<(String, String)>|
                lists_headers(e, self.headers@) && r@ == #[trigger] response_text(
                    self.status_code,
                    pair_views(e),
                    option_view(self.body),
                ),
    {
        let e = header_list(&self.headers);
        render_response(self.status_code, &e, &self.body)
    }
}

/// The value of the header that hands a session id to the client.
pub open spec fn session_cookie(id: Seq<char>) -> Seq<char> {
    "sessionId="@ + id + "; Path=/"@
}

/// Adds the `Set-Cookie` header that hands the session id to the client.
pub fn add_session_cookie(response: &mut HttpResponse, session_id: &str)
    ensures
        final(response).status_code == old(response).status_code,
        final(response).body == old(response).body,
        exists|k: String, v: String|
            {
                &&& k@ == "Set-Cookie"@
                &&& v@ == session_cookie(session_id@)
                &&& #[trigger] final(response).headers@ == old(response).headers@.insert(k, v)
            },
{
    let k = String::from_str("Set-Cookie");
    let mut v = String::from_str("sessionId=");
    v.append(session_id);
    v.append("; Path=/");
    let ghost kg = k;
    let ghost vg = v;
    set_header(&mut response.headers, k, v);
    assert(response.headers@ == old(response).headers@.insert(kg, vg));
}

} // verus!
