//! Requests: what a worker handles, and how one is read from the text of a
//! single read on a connection.
use vstd::prelude::*;
use vstd::utf8::{decode_utf8, valid_utf8};

use crate::text::{is_space, push_char, space};

verus! {

/// A parsed request. Built once per connection and not changed afterwards.
#[derive(Debug)]
pub struct HttpRequest {
    pub method: String,
    pub path: String,
    pub _headers: Vec<String>,
    pub body: String,
    pub cookie: Option<String>,
}

/// Why a request could not be read; such a connection gets no reply.
#[derive(Debug, PartialEq, Eq, Structural)]
pub enum ParseError {
    NoHeaders,
    NoMethod,
}

/// The contents of a request as plain character sequences.
pub struct RequestView {
    pub method: Seq<char>,
    pub path: Seq<char>,
    pub headers: Seq<Seq<char>>,
    pub body: Seq<char>,
    pub cookie: Option<Seq<char>>,
}

pub open spec fn string_views(v: Seq<String>) -> Seq<Seq<char>> {
    v.map_values(|s: String| s@)
}

pub open spec fn line_views(v: Seq<Vec<char>>) -> Seq<Seq<char>> {
    v.map_values(|l: Vec<char>| l@)
}

pub open spec fn option_view(o: Option<String>) -> Option<Seq<char>> {
    match o {
        Some(s) => Some(s@),
        None => None,
    }
}

impl View for HttpRequest {
    type V = RequestView;

    open spec fn view(&self) -> RequestView {
        RequestView {
            method: self.method@,
            path: self.path@,
            headers: string_views(self._headers@),
            body: self.body@,
            cookie: option_view(self.cookie),
        }
    }
}

/// What ends a scan over characters.
#[derive(Clone, Copy)]
pub enum Stop {
    Char(char),
    Space,
    NonSpace,
}

pub open spec fn stops(s: Stop, c: char) -> bool {
    match s {
        Stop::Char(d) => c == d,
        Stop::Space => is_space(c),
        Stop::NonSpace => !is_space(c),
    }
}

/// The first position at or after `i` whose character ends the scan, or the
/// length of `t` when there is none.
pub open spec fn scan(t: Seq<char>, i: nat, s: Stop) -> nat
    decreases t.len() - i,
{
    if i >= t.len() {
        t.len()
    } else if stops(s, t[i as int]) {
        i
    } else {
        scan(t, i + 1, s)
    }
}

/// The blank line (CR LF CR LF) that ends the head of a request starts at `i`.
pub open spec fn blank_at(t: Seq<char>, i: int) -> bool {
    &&& 0 <= i
    &&& i + 4 <= t.len()
    &&& t[i] == '\r'
    &&& t[i + 1] == '\n'
    &&& t[i + 2] == '\r'
    &&& t[i + 3] == '\n'
}

/// The first blank line at or after `i`.
pub open spec fn blank_from(t: Seq<char>, i: nat) -> Option<nat>
    decreases t.len() - i,
{
    if i + 4 > t.len() {
        None
    } else if blank_at(t, i as int) {
        Some(i)
    } else {
        blank_from(t, i + 1)
    }
}

/// The request line and header lines: everything before the first blank line.
pub open spec fn head_of(t: Seq<char>) -> Seq<char> {
    match blank_from(t, 0) {
        Some(k) => t.subrange(0, k as int),
        None => t,
    }
}

/// Everything after the first blank line.
pub open spec fn body_of(t: Seq<char>) -> Seq<char> {
    match blank_from(t, 0) {
        Some(k) => t.subrange(k + 4int, t.len() as int),
        None => Seq::empty(),
    }
}

pub open spec fn strip_cr(l: Seq<char>) -> Seq<char> {
    if l.len() > 0 && l.last() == '\r' {
        l.drop_last()
    } else {
        l
    }
}

/// The lines of `t` from position `i` on, in a line that began at `start`: a
/// line ends at LF, which is dropped with a CR before it; a final line without
/// LF is kept as it is, and an empty one is no line.
pub open spec fn lines_acc(t: Seq<char>, start: nat, i: nat) -> Seq<Seq<char>>
    decreases t.len() - i,
{
    if i >= t.len() {
        if start < t.len() {
            seq![t.subrange(start as int, t.len() as int)]
        } else {
            Seq::empty()
        }
    } else if t[i as int] == '\n' {
        seq![strip_cr(t.subrange(start as int, i as int))] + lines_acc(t, i + 1, i + 1)
    } else {
        lines_acc(t, start, i + 1)
    }
}

pub open spec fn lines_of(t: Seq<char>) -> Seq<Seq<char>> {
    lines_acc(t, 0, 0)
}

/// The maximal runs of non-space characters of `t` from position `i` on;
/// `start` is where the run in progress began, if one is.
pub open spec fn words_acc(t: Seq<char>, start: Option<nat>, i: nat) -> Seq<Seq<char>>
    decreases t.len() - i,
{
    if i >= t.len() {
        match start {
            Some(s) => seq![t.subrange(s as int, t.len() as int)],
            None => Seq::empty(),
        }
    } else if is_space(t[i as int]) {
        match start {
            Some(s) => seq![t.subrange(s as int, i as int)] + words_acc(t, None, i + 1),
            None => words_acc(t, None, i + 1),
        }
    } else {
        match start {
            Some(s) => words_acc(t, Some(s), i + 1),
            None => words_acc(t, Some(i), i + 1),
        }
    }
}

pub open spec fn words_of(t: Seq<char>) -> Seq<Seq<char>> {
    words_acc(t, None, 0)
}

/// The length of `s[..n]` without its trailing spaces.
pub open spec fn trim_end(s: Seq<char>, n: nat) -> nat
    decreases n,
{
    if n == 0 {
        0
    } else if is_space(s[n - 1]) {
        trim_end(s, (n - 1) as nat)
    } else {
        n
    }
}

/// `s` without leading and trailing spaces.
pub open spec fn trim(s: Seq<char>) -> Seq<char> {
    let a = scan(s, 0, Stop::NonSpace);
    let b = trim_end(s, s.len());
    if a < b {
        s.subrange(a as int, b as int)
    } else {
        Seq::empty()
    }
}

/// A header line whose name is `Cookie`.
pub open spec fn is_cookie_header(h: Seq<char>) -> bool {
    h.len() >= 7 && h.subrange(0, 7) == seq!['C', 'o', 'o', 'k', 'i', 'e', ':']
}

/// The session token of a cookie header: the text between its first `=` and
/// the next `=` (or the end), trimmed; none without any `=`.
pub open spec fn cookie_value(h: Seq<char>) -> Option<Seq<char>> {
    let a = scan(h, 0, Stop::Char('='));
    if a >= h.len() {
        None
    } else {
        let b = scan(h, a + 1, Stop::Char('='));
        Some(trim(h.subrange(a + 1int, b as int)))
    }
}

/// The token of the first cookie header among `hs[i..]`.
pub open spec fn cookie_of(hs: Seq<Seq<char>>, i: nat) -> Option<Seq<char>>
    decreases hs.len() - i,
{
    if i >= hs.len() {
        None
    } else if is_cookie_header(hs[i as int]) {
        cookie_value(hs[i as int])
    } else {
        cookie_of(hs, i + 1)
    }
}

/// What a request text reads as.
pub open spec fn request_of(t: Seq<char>) -> Result<RequestView, ParseError> {
    let head = head_of(t);
    let ls = lines_of(head);
    let line = if ls.len() > 0 {
        ls[0]
    } else {
        Seq::empty()
    };
    let headers = if ls.len() > 0 {
        ls.drop_first()
    } else {
        Seq::empty()
    };
    let ws = words_of(line);
    if head.len() == 0 {
        Err(ParseError::NoHeaders)
    } else if ws.len() == 0 {
        Err(ParseError::NoMethod)
    } else {
        Ok(
            RequestView {
                method: ws[0],
                path: if ws.len() > 1 {
                    ws[1]
                } else {
                    Seq::empty()
                },
                headers,
                body: body_of(t),
                cookie: cookie_of(headers, 0),
            },
        )
    }
}

fn stops_at(s: Stop, c: char) -> (r: bool)
    ensures
        r == stops(s, c),
{
    match s {
        Stop::Char(d) => c == d,
        Stop::Space => space(c),
        Stop::NonSpace => !space(c),
    }
}

fn scan_from(t: &Vec<char>, i: usize, s: Stop) -> (r: usize)
    requires
        i <= t@.len(),
    ensures
        r == scan(t@, i as nat, s),
        i <= r <= t@.len(),
{
    let mut j = i;
    while j < t.len() && !stops_at(s, t[j])
        invariant
            i <= j <= t@.len(),
            scan(t@, i as nat, s) == scan(t@, j as nat, s),
        decreases t@.len() - j,
    {
        j += 1;
    }
    j
}

fn chars_of(s: &str) -> (r: Vec<char>)
    ensures
        r@ == s@,
{
    let n = s.unicode_len();
    let mut v: Vec<char> = Vec::new();
    let mut i: usize = 0;
    while i < n
        invariant
            n == s@.len(),
            i <= n,
            v@ == s@.subrange(0, i as int),
        decreases n - i,
    {
        v.push(s.get_char(i));
        i += 1;
    }
    v
}

fn copy_range(t: &Vec<char>, a: usize, b: usize) -> (r: Vec<char>)
    requires
        a <= b <= t@.len(),
    ensures
        r@ == t@.subrange(a as int, b as int),
{
    let mut v: Vec<char> = Vec::new();
    let mut i = a;
    while i < b
        invariant
            a <= i <= b <= t@.len(),
            v@ == t@.subrange(a as int, i as int),
        decreases b - i,
    {
        v.push(t[i]);
        i += 1;
    }
    v
}

fn string_of(t: &Vec<char>) -> (r: String)
    ensures
        r@ == t@,
{
    let mut s = String::new();
    let mut i: usize = 0;
    while i < t.len()
        invariant
            i <= t@.len(),
            s@ == t@.subrange(0, i as int),
        decreases t@.len() - i,
    {
        push_char(&mut s, t[i]);
        i += 1;
    }
    s
}

fn find_blank(t: &Vec<char>) -> (r: Option<usize>)
    ensures
        r matches Some(k) ==> blank_from(t@, 0) == Some(k as nat) && k + 4 <= t@.len(),
        r is None ==> blank_from(t@, 0) is None,
{
    let mut i: usize = 0;
    while i < t.len() && t.len() - i >= 4
        invariant
            i <= t@.len(),
            blank_from(t@, 0) == blank_from(t@, i as nat),
        decreases t@.len() - i,
    {
        if t[i] == '\r' && t[i + 1] == '\n' && t[i + 2] == '\r' && t[i + 3] == '\n' {
            return Some(i);
        }
        i += 1;
    }
    None
}

fn split_lines(t: &Vec<char>) -> (r: Vec<Vec<char>>)
    ensures
        line_views(r@) == lines_of(t@),
{
    let mut out: Vec<Vec<char>> = Vec::new();
    let mut start: usize = 0;
    let mut i: usize = 0;
    while i < t.len()
        invariant
            start <= i <= t@.len(),
            lines_of(t@) == line_views(out@) + lines_acc(t@, start as nat, i as nat),
        decreases t@.len() - i,
    {
        if t[i] == '\n' {
            let l = if i > start && t[i - 1] == '\r' {
                copy_range(t, start, i - 1)
            } else {
                copy_range(t, start, i)
            };
            proof {
                assert(l@ =~= strip_cr(t@.subrange(start as int, i as int)));
                assert(line_views(out@.push(l)) =~= line_views(out@).push(l@));
                assert(line_views(out@) + lines_acc(t@, start as nat, i as nat) =~= line_views(
                    out@.push(l),
                ) + lines_acc(t@, (i + 1) as nat, (i + 1) as nat));
            }
            out.push(l);
            start = i + 1;
        }
        i += 1;
    }
    if start < t.len() {
        let l = copy_range(t, start, t.len());
        proof {
            assert(line_views(out@.push(l)) =~= line_views(out@) + lines_acc(
                t@,
                start as nat,
                i as nat,
            ));
        }
        out.push(l);
    } else {
        assert(line_views(out@) =~= line_views(out@) + lines_acc(t@, start as nat, i as nat));
    }
    out
}

fn split_words(t: &Vec<char>) -> (r: Vec<Vec<char>>)
    ensures
        line_views(r@) == words_of(t@),
{
    let mut out: Vec<Vec<char>> = Vec::new();
    let mut start: Option<usize> = None;
    let mut i: usize = 0;
    while i < t.len()
        invariant
            i <= t@.len(),
            start matches Some(s) ==> s < i,
            words_of(t@) == line_views(out@) + words_acc(
                t@,
                match start {
                    Some(s) => Some(s as nat),
                    None => None,
                },
                i as nat,
            ),
        decreases t@.len() - i,
    {
        let ghost before = out@;
        if space(t[i]) {
            match start {
                Some(s) => {
                    let w = copy_range(t, s, i);
                    proof {
                        assert(line_views(before.push(w)) =~= line_views(before).push(w@));
                        assert(line_views(before) + words_acc(t@, Some(s as nat), i as nat)
                            =~= line_views(before.push(w)) + words_acc(
                            t@,
                            None,
                            (i + 1) as nat,
                        ));
                    }
                    out.push(w);
                },
                None => {},
            }
            start = None;
        } else {
            match start {
                Some(_) => {},
                None => {
                    start = Some(i);
                },
            }
        }
        i += 1;
    }
    match start {
        Some(s) => {
            let w = copy_range(t, s, t.len());
            proof {
                assert(line_views(out@.push(w)) =~= line_views(out@) + words_acc(
                    t@,
                    Some(s as nat),
                    i as nat,
                ));
            }
            out.push(w);
        },
        None => {
            assert(line_views(out@) =~= line_views(out@) + words_acc(t@, None, i as nat));
        },
    }
    out
}

fn trailing_trim(s: &Vec<char>) -> (r: usize)
    ensures
        r == trim_end(s@, s@.len()),
        r <= s@.len(),
{
    let mut n = s.len();
    while n > 0 && space(s[n - 1])
        invariant
            n <= s@.len(),
            trim_end(s@, s@.len()) == trim_end(s@, n as nat),
        decreases n,
    {
        n -= 1;
    }
    n
}

fn trimmed(s: &Vec<char>) -> (r: Vec<char>)
    ensures
        r@ == trim(s@),
{
    let a = scan_from(s, 0, Stop::NonSpace);
    let b = trailing_trim(s);
    if a < b {
        copy_range(s, a, b)
    } else {
        Vec::new()
    }
}

fn cookie_header(h: &Vec<char>) -> (r: bool)
    ensures
        r == is_cookie_header(h@),
{
    let r = h.len() >= 7 && h[0] == 'C' && h[1] == 'o' && h[2] == 'o' && h[3] == 'k' && h[4]
        == 'i' && h[5] == 'e' && h[6] == ':';
    proof {
        if h@.len() >= 7 {
            assert(r == (h@.subrange(0, 7) =~= seq!['C', 'o', 'o', 'k', 'i', 'e', ':']));
        }
    }
    r
}

fn token_of(h: &Vec<char>) -> (r: Option<Vec<char>>)
    ensures
        match r {
            Some(v) => cookie_value(h@) == Some(v@),
            None => cookie_value(h@) is None,
        },
{
    let a = scan_from(h, 0, Stop::Char('='));
    if a >= h.len() {
        None
    } else {
        let b = scan_from(h, a + 1, Stop::Char('='));
        let seg = copy_range(h, a + 1, b);
        Some(trimmed(&seg))
    }
}

fn find_cookie(hs: &Vec<Vec<char>>) -> (r: Option<Vec<char>>)
    ensures
        match r {
            Some(v) => cookie_of(line_views(hs@), 0) == Some(v@),
            None => cookie_of(line_views(hs@), 0) is None,
        },
{
    let mut i: usize = 0;
    while i < hs.len()
        invariant
            i <= hs@.len(),
            cookie_of(line_views(hs@), 0) == cookie_of(line_views(hs@), i as nat),
        decreases hs@.len() - i,
    {
        if cookie_header(&hs[i]) {
            return token_of(&hs[i]);
        }
        i += 1;
    }
    None
}

/// Reads a request from the text of one read: the head ends at the first
/// blank line and the body is everything after it.
pub fn parse_request(text: &str) -> (r: Result<HttpRequest, ParseError>)
    ensures
        match r {
            Ok(q) => request_of(text@) == Ok::<RequestView, ParseError>(q@),
            Err(e) => request_of(text@) == Err::<RequestView, ParseError>(e),
        },
{
    let t = chars_of(text);
    let n = t.len();
    let (head, body) = match find_blank(&t) {
        Some(k) => (copy_range(&t, 0, k), copy_range(&t, k + 4, n)),
        None => (copy_range(&t, 0, n), Vec::new()),
    };
    assert(head@ == head_of(t@));
    assert(body@ == body_of(t@));
    if head.len() == 0 {
        return Err(ParseError::NoHeaders);
    }
    let ls = split_lines(&head);
    let ws = if ls.len() > 0 {
        split_words(&ls[0])
    } else {
        Vec::new()
    };
    if ws.len() == 0 {
        return Err(ParseError::NoMethod);
    }
    let method = string_of(&ws[0]);
    let path = if ws.len() > 1 {
        string_of(&ws[1])
    } else {
        String::new()
    };
    let mut header_lines: Vec<Vec<char>> = Vec::new();
    let mut headers: Vec<String> = Vec::new();
    let mut k: usize = 1;
    while k < ls.len()
        invariant
            1 <= k <= ls@.len(),
            line_views(header_lines@) =~= line_views(ls@).subrange(1, k as int),
            string_views(headers@) =~= line_views(ls@).subrange(1, k as int),
        decreases ls@.len() - k,
    {
        let l = copy_range(&ls[k], 0, ls[k].len());
        let h = string_of(&l);
        proof {
            assert(l@ =~= line_views(ls@)[k as int]);
            assert(line_views(header_lines@.push(l)) =~= line_views(header_lines@).push(l@));
            assert(string_views(headers@.push(h)) =~= string_views(headers@).push(h@));
            assert(line_views(ls@).subrange(1, k + 1) =~= line_views(ls@).subrange(1, k as int).push(
                l@,
            ));
        }
        headers.push(h);
        header_lines.push(l);
        k += 1;
    }
    let cookie = match find_cookie(&header_lines) {
        Some(v) => Some(string_of(&v)),
        None => None,
    };
    let req = HttpRequest { method, path, _headers: headers, body: string_of(&body), cookie };
    assert(line_views(header_lines@) =~= lines_of(head@).drop_first());
    Ok(req)
}

/// The text that `String::from_utf8_lossy` reads from `b`.
pub uninterp spec fn lossy_text(b: Seq<u8>) -> Seq<char>;

/// Relies on `String::from_utf8_lossy`: valid UTF-8 is decoded as it stands;
/// an invalid sequence becomes U+FFFD.
#[verifier::external_body]
fn decode_lossy(b: &[u8]) -> (r: String)
    ensures
        r@ == lossy_text(b@),
        valid_utf8(b@) ==> r@ == decode_utf8(b@),
{
    String::from_utf8_lossy(b).into_owned()
}

/// Reads a request from the bytes of one read on a connection.
pub fn parse_request_bytes(b: &[u8]) -> (r: Result<HttpRequest, ParseError>)
    ensures
        match r {
            Ok(q) => request_of(lossy_text(b@)) == Ok::<RequestView, ParseError>(q@),
            Err(e) => request_of(lossy_text(b@)) == Err::<RequestView, ParseError>(e),
        },
        valid_utf8(b@) ==> lossy_text(b@) == decode_utf8(b@),
{
    let text = decode_lossy(b);
    parse_request(text.as_str())
}

/// The handler a request goes to, by its method.
#[derive(Debug, Clone, Copy, PartialEq, Eq, Structural)]
pub enum Method {
    Get,
    Post,
    Put,
    Delete,
    Patch,
    Other,
}

pub open spec fn method_of(m: Seq<char>) -> Method {
    if m == "GET"@ {
        Method::Get
    } else if m == "POST"@ {
        Method::Post
    } else if m == "PUT"@ {
        Method::Put
    } else if m == "DELETE"@ {
        Method::Delete
    } else if m == "PATCH"@ {
        Method::Patch
    } else {
        Method::Other
    }
}

impl Method {
    /// The method named by `m`, compared case-sensitively.
    pub fn of(m: &str) -> (r: Method)
        ensures
            r == method_of(m@),
    {
        let m = String::from_str(m);
        if m == String::from_str("GET") {
            Method::Get
        } else if m == String::from_str("POST") {
            Method::Post
        } else if m == String::from_str("PUT") {
            Method::Put
        } else if m == String::from_str("DELETE") {
            Method::Delete
        } else if m == String::from_str("PATCH") {
            Method::Patch
        } else {
            Method::Other
        }
    }
}

/// A method outside GET, POST, PUT, DELETE and PATCH goes to the reply for
/// methods that are not allowed, whatever the path and the body.
pub proof fn unknown_method_is_refused(m: Seq<char>)
    requires
        m != "GET"@,
        m != "POST"@,
        m != "PUT"@,
        m != "DELETE"@,
        m != "PATCH"@,
    ensures
        method_of(m) == Method::Other,
{
}

proof fn lemma_blank_first(t: Seq<char>, i: nat, k: nat)
    requires
        i <= k,
        blank_at(t, k as int),
        forall|j: int| i <= j < k ==> !#[trigger] blank_at(t, j),
    ensures
        blank_from(t, i) == Some(k),
    decreases k - i,
{
    if i < k {
        assert(!blank_at(t, i as int));
        lemma_blank_first(t, i + 1, k);
    }
}

proof fn lemma_line_continues(t: Seq<char>, start: nat, i: nat, j: nat)
    requires
        i <= j <= t.len(),
        forall|x: int| i <= x < j ==> #[trigger] t[x] != '\n',
    ensures
        lines_acc(t, start, i) == lines_acc(t, start, j),
    decreases j - i,
{
    if i < j {
        assert(t[i as int] != '\n');
        lemma_line_continues(t, start, i + 1, j);
    }
}

proof fn lemma_word_continues(t: Seq<char>, s: nat, i: nat, j: nat)
    requires
        i <= j <= t.len(),
        forall|x: int| i <= x < j ==> !is_space(#[trigger] t[x]),
    ensures
        words_acc(t, Some(s), i) == words_acc(t, Some(s), j),
    decreases j - i,
{
    if i < j {
        assert(!is_space(t[i as int]));
        lemma_word_continues(t, s, i + 1, j);
    }
}

/// A request `M P HTTP/1.1`, the header line `Header: v` and a blank line,
/// followed by a body, reads as method `M`, path `P`, that one header, no
/// cookie and exactly that body, for any method and path that are non-empty
/// and free of whitespace and for any body.
pub proof fn request_round_trip(m: Seq<char>, p: Seq<char>, b: Seq<char>)
    requires
        m.len() > 0,
        p.len() > 0,
        forall|i: int| 0 <= i < m.len() ==> !is_space(#[trigger] m[i]),
        forall|i: int| 0 <= i < p.len() ==> !is_space(#[trigger] p[i]),
    ensures
        request_of(m + " "@ + p + " HTTP/1.1\r\nHeader: v\r\n\r\n"@ + b) matches Ok(q) && q.method
            == m && q.path == p && q.body == b && q.headers == seq!["Header: v"@] && q.cookie is None,
{
    reveal_strlit("Header: v");
    reveal_strlit(" ");
    reveal_strlit(" HTTP/1.1\r\nHeader: v\r\n\r\n");
    let tail = " HTTP/1.1\r\nHeader: v\r\n\r\n"@;
    assert(tail =~= seq![
        ' ', 'H', 'T', 'T', 'P', '/', '1', '.', '1', '\r', '\n', 'H', 'e', 'a', 'd', 'e', 'r',
        ':', ' ', 'v', '\r', '\n', '\r', '\n',
    ]);
    let t = m + " "@ + p + tail + b;
    let a = m.len() as int;
    let c = p.len() as int;
    let o = a + 1 + c;
    let k = o + 20;
    assert(t.len() == o + 24 + b.len());
    assert forall|x: int| 0 <= x < a implies #[trigger] t[x] == m[x] by {}
    assert(t[a] == ' ');
    assert forall|x: int| a < x < o implies #[trigger] t[x] == p[x - a - 1] by {}
    assert forall|x: int| o <= x < o + 24 implies #[trigger] t[x] == tail[x - o] by {}
    // the head ends at the blank line after the header
    assert(blank_at(t, k));
    assert forall|j: int| 0 <= j < k implies !#[trigger] blank_at(t, j) by {
        if j < a {
            assert(t[j] == m[j]);
        } else if j == a {
        } else if j < o {
            assert(t[j] == p[j - a - 1]);
        } else if j - o == 9 {
            assert(t[j + 2] == tail[11]);
        } else {
            assert(t[j] == tail[j - o]);
        }
    }
    lemma_blank_first(t, 0, k as nat);
    let head = t.subrange(0, k);
    assert(head_of(t) == head);
    assert(body_of(t) =~= b);
    // two lines: the request line and the header
    let l = o + 10;
    assert forall|x: int| 0 <= x < l implies #[trigger] head[x] != '\n' by {
        if x < a {
            assert(head[x] == m[x]);
        } else if x == a {
        } else if x < o {
            assert(head[x] == p[x - a - 1]);
        } else {
            assert(head[x] == tail[x - o]);
        }
    }
    lemma_line_continues(head, 0, 0, l as nat);
    assert(head[l] == '\n');
    assert forall|x: int| l + 1 <= x < k implies #[trigger] head[x] != '\n' by {
        assert(head[x] == tail[x - o]);
    }
    lemma_line_continues(head, (l + 1) as nat, (l + 1) as nat, k as nat);
    let line = head.subrange(0, l - 1);
    assert(head[l - 1] == '\r');
    assert(strip_cr(head.subrange(0, l)) =~= line);
    let ls = lines_of(head);
    assert(ls =~= seq![line] + seq![head.subrange(l + 1, k)]);
    // the request line's first two words
    assert(line[0] == m[0]);
    assert forall|x: int| 1 <= x < a implies !is_space(#[trigger] line[x]) by {
        assert(line[x] == m[x]);
    }
    lemma_word_continues(line, 0, 1, a as nat);
    assert(line[a] == ' ');
    assert(line[a + 1] == p[0]);
    assert forall|x: int| a + 2 <= x < o implies !is_space(#[trigger] line[x]) by {
        assert(line[x] == p[x - a - 1]);
    }
    lemma_word_continues(line, (a + 1) as nat, (a + 2) as nat, o as nat);
    assert(line[o] == ' ');
    let rest = words_acc(line, None, (o + 1) as nat);
    let ws = words_of(line);
    assert(words_acc(line, Some((a + 1) as nat), o as nat) == seq![line.subrange(a + 1, o)] + rest);
    assert(!is_space(line[0]));
    assert(words_acc(line, None, 0) == words_acc(line, Some(0), 1));
    assert(is_space(line[a]));
    assert(words_acc(line, Some(0), a as nat) == seq![line.subrange(0, a)] + words_acc(
        line,
        None,
        (a + 1) as nat,
    ));
    assert(!is_space(line[a + 1]));
    assert(words_acc(line, None, (a + 1) as nat) == words_acc(
        line,
        Some((a + 1) as nat),
        (a + 2) as nat,
    ));
    assert(ws == seq![line.subrange(0, a)] + (seq![line.subrange(a + 1, o)] + rest));
    assert(line.subrange(0, a) =~= m);
    assert(line.subrange(a + 1, o) =~= p);
    // the header line, which is no cookie header
    let h = head.subrange(l + 1, k);
    assert(h =~= "Header: v"@);
    assert(ls.drop_first() =~= seq![h]);
    assert(!is_cookie_header(h)) by {
        assert(h.subrange(0, 7)[0] == 'H');
    }
    assert(cookie_of(seq![h], 1) is None);
}

/// A request with no header named `Cookie` carries no session token.
pub proof fn no_cookie_header_means_no_cookie(t: Seq<char>)
    requires
        request_of(t) is Ok,
        forall|i: int|
            0 <= i < request_of(t)->Ok_0.headers.len() ==> !is_cookie_header(
                #[trigger] request_of(t)->Ok_0.headers[i],
            ),
    ensures
        request_of(t)->Ok_0.cookie is None,
{
    let hs = request_of(t)->Ok_0.headers;
    lemma_no_cookie_from(hs, 0);
}

proof fn lemma_no_cookie_from(hs: Seq<Seq<char>>, i: nat)
    requires
        forall|j: int| 0 <= j < hs.len() ==> !is_cookie_header(#[trigger] hs[j]),
    ensures
        cookie_of(hs, i) is None,
    decreases hs.len() - i,
{
    if i < hs.len() {
        assert(!is_cookie_header(hs[i as int]));
        lemma_no_cookie_from(hs, i + 1);
    }
}

} // verus!
