//! HTTP responses and the queries the matchers and extractors make of them.

use vstd::prelude::*;
use crate::text::{
    chars_of, contains, contains_exec, is_whitespace, is_whitespace_exec, lines, lines_exec, lowercase,
    string_of, to_lowercase, utf8_len, byte_len,
};
use crate::time::TimeSpan;

verus! {

/// A header list as character sequences.
pub open spec fn pairs_view(v: Seq<(String, String)>) -> Seq<(Seq<char>, Seq<char>)> {
    v.map_values(|p: (String, String)| (p.0@, p.1@))
}

/// Value of the first header whose name equals `name` once both are lowercased.
pub open spec fn find_header(hs: Seq<(Seq<char>, Seq<char>)>, name: Seq<char>) -> Option<Seq<char>>
    decreases hs.len(),
{
    if hs.len() == 0 {
        None
    } else if lowercase(hs[0].0) == lowercase(name) {
        Some(hs[0].1)
    } else {
        find_header(hs.drop_first(), name)
    }
}

/// `v` holds a value whose lowercase form contains `needle`.
pub open spec fn lower_mentions(v: Option<Seq<char>>, needle: Seq<char>) -> bool {
    v matches Some(ct) && contains(lowercase(ct), needle)
}

/// One header rendered as `name: value`.
pub open spec fn header_line(h: (Seq<char>, Seq<char>)) -> Seq<char> {
    h.0 + ": "@ + h.1
}

/// All headers rendered one per line, joined by `'\n'`.
pub open spec fn headers_text(hs: Seq<(Seq<char>, Seq<char>)>) -> Seq<char>
    decreases hs.len(),
{
    if hs.len() == 0 {
        Seq::empty()
    } else if hs.len() == 1 {
        header_line(hs[0])
    } else {
        header_line(hs[0]) + "\n"@ + headers_text(hs.drop_first())
    }
}

/// Number of maximal runs of non-whitespace characters (std's
/// `split_whitespace().count()`).
pub open spec fn word_count(s: Seq<char>) -> nat
    decreases s.len(),
{
    if s.len() == 0 {
        0
    } else {
        let starts_word = !is_whitespace(s.last()) && (s.len() == 1 || is_whitespace(
            s[s.len() - 2],
        ));
        word_count(s.drop_last()) + if starts_word {
            1nat
        } else {
            0nat
        }
    }
}

/// The abstract content of an `HttpResponse`.
pub struct ResponseView {
    pub status: u16,
    pub headers: Seq<(Seq<char>, Seq<char>)>,
    pub body: Seq<char>,
    pub content_length: u64,
    pub response_time: u128,
    pub final_url: Seq<char>,
}

/// An HTTP response as received: status, headers in the order received, body
/// text, length, timing and the URL after redirects.
#[derive(Debug)]
pub struct HttpResponse {
    pub status: u16,
    pub headers: Vec<(String, String)>,
    pub body: String,
    pub content_length: u64,
    pub response_time: TimeSpan,
    pub final_url: String,
}

impl View for HttpResponse {
    type V = ResponseView;

    open spec fn view(&self) -> ResponseView {
        ResponseView {
            status: self.status,
            headers: pairs_view(self.headers@),
            body: self.body@,
            content_length: self.content_length,
            response_time: self.response_time.nanos,
            final_url: self.final_url@,
        }
    }
}

/// A copy of a header list.
pub fn clone_pairs(v: &Vec<(String, String)>) -> (r: Vec<(String, String)>)
    ensures
        pairs_view(r@) == pairs_view(v@),
        r@.len() == v@.len(),
{
    let mut r: Vec<(String, String)> = Vec::new();
    for i in 0..v.len()
        invariant
            r@.len() == i,
            i <= v@.len(),
            forall|k: int| 0 <= k < i ==> r@[k].0@ == v@[k].0@ && r@[k].1@ == v@[k].1@,
    {
        r.push((v[i].0.clone(), v[i].1.clone()));
    }
    assert(pairs_view(r@) =~= pairs_view(v@));
    r
}

impl Clone for HttpResponse {
    fn clone(&self) -> (r: Self)
        ensures
            r@ == self@,
    {
        HttpResponse {
            status: self.status,
            headers: clone_pairs(&self.headers),
            body: self.body.clone(),
            content_length: self.content_length,
            response_time: self.response_time,
            final_url: self.final_url.clone(),
        }
    }
}

fn push_str(out: &mut Vec<char>, s: &str)
    ensures
        final(out)@ == old(out)@ + s@,
{
    let cs = chars_of(s);
    out.extend_from_slice(cs.as_slice());
}

impl HttpResponse {
    pub fn new(
        status: u16,
        headers: Vec<(String, String)>,
        body: String,
        content_length: u64,
        response_time: TimeSpan,
        final_url: String,
    ) -> (r: Self)
        ensures
            r.status == status,
            r.headers == headers,
            r.body == body,
            r.content_length == content_length,
            r.response_time == response_time,
            r.final_url == final_url,
    {
        HttpResponse { status, headers, body, content_length, response_time, final_url }
    }

    /// Value of a header, the name compared case-insensitively; the first
    /// matching header wins.
    pub fn get_header(&self, name: &str) -> (r: Option<&String>)
        ensures
            match r {
                Some(v) => find_header(self@.headers, name@) == Some(v@),
                None => find_header(self@.headers, name@) is None,
            },
    {
        let target = to_lowercase(name);
        let mut i: usize = 0;
        assert(self@.headers.skip(0) =~= self@.headers);
        while i < self.headers.len()
            invariant
                i <= self.headers@.len(),
                target@ == lowercase(name@),
                find_header(self@.headers, name@) == find_header(
                    self@.headers.skip(i as int),
                    name@,
                ),
            decreases self.headers@.len() - i,
        {
            assert(self@.headers.skip(i as int)[0] == (
            self.headers@[i as int].0@,
            self.headers@[i as int].1@,
            ));
            let key = to_lowercase(self.headers[i].0.as_str());
            if key == target {
                return Some(&self.headers[i].1);
            }
            assert(self@.headers.skip(i as int).drop_first() =~= self@.headers.skip(i + 1));
            i = i + 1;
        }
        None
    }

    /// All headers as `name: value` lines joined by `'\n'`.
    pub fn headers_string(&self) -> (s: String)
        ensures
            s@ == headers_text(self@.headers),
    {
        let v = self.headers_chars();
        string_of(v.as_slice())
    }

    fn headers_chars(&self) -> (out: Vec<char>)
        ensures
            out@ == headers_text(self@.headers),
    {
        let ghost hs = self@.headers;
        let n = self.headers.len();
        let mut out: Vec<char> = Vec::new();
        if n == 0 {
            return out;
        }
        let mut i: usize = n;
        // Build from the back: out holds the text of headers i..n.
        let last = &self.headers[n - 1];
        push_str(&mut out, last.0.as_str());
        push_str(&mut out, ": ");
        push_str(&mut out, last.1.as_str());
        i = n - 1;
        assert(hs.skip(i as int) =~= seq![hs[i as int]]);
        while i > 0
            invariant
                hs == self@.headers,
                n == hs.len(),
                0 <= i < n,
                out@ == headers_text(hs.skip(i as int)),
            decreases i,
        {
            let h = &self.headers[i - 1];
            let mut line: Vec<char> = Vec::new();
            push_str(&mut line, h.0.as_str());
            push_str(&mut line, ": ");
            push_str(&mut line, h.1.as_str());
            push_str(&mut line, "\n");
            let ghost tail = out@;
            line.extend_from_slice(out.as_slice());
            out = line;
            assert(hs.skip(i - 1).drop_first() =~= hs.skip(i as int));
            assert(hs.skip(i - 1)[0] == hs[i - 1]);
            assert(out@ =~= header_line(hs[i - 1]) + "\n"@ + tail);
            i = i - 1;
        }
        assert(hs.skip(0) =~= hs);
        out
    }

    /// Headers, a blank line, then the body.
    pub fn full_response(&self) -> (s: String)
        ensures
            s@ == headers_text(self@.headers) + "\n\n"@ + self@.body,
    {
        let mut v = self.headers_chars();
        push_str(&mut v, "\n\n");
        push_str(&mut v, self.body.as_str());
        string_of(v.as_slice())
    }

    pub fn is_success(&self) -> (b: bool)
        ensures
            b == (200 <= self.status < 300),
    {
        200 <= self.status && self.status < 300
    }

    pub fn is_redirect(&self) -> (b: bool)
        ensures
            b == (300 <= self.status < 400),
    {
        300 <= self.status && self.status < 400
    }

    pub fn is_client_error(&self) -> (b: bool)
        ensures
            b == (400 <= self.status < 500),
    {
        400 <= self.status && self.status < 500
    }

    pub fn is_server_error(&self) -> (b: bool)
        ensures
            b == (500 <= self.status < 600),
    {
        500 <= self.status && self.status < 600
    }

    /// Value of the `content-type` header.
    pub fn content_type(&self) -> (r: Option<&String>)
        ensures
            match r {
                Some(v) => find_header(self@.headers, "content-type"@) == Some(v@),
                None => find_header(self@.headers, "content-type"@) is None,
            },
    {
        self.get_header("content-type")
    }

    fn content_type_mentions(&self, needles: &[&str]) -> (b: bool)
        ensures
            b == exists|k: int|
                0 <= k < needles@.len() && #[trigger] lower_mentions(
                    find_header(self@.headers, "content-type"@),
                    needles@[k]@,
                ),
    {
        match self.content_type() {
            Some(ct) => {
                let l = chars_of(to_lowercase(ct.as_str()).as_str());
                let mut k: usize = 0;
                while k < needles.len()
                    invariant
                        k <= needles@.len(),
                        l@ == lowercase(ct@),
                        find_header(self@.headers, "content-type"@) == Some(ct@),
                        forall|j: int|
                            0 <= j < k ==> !#[trigger] lower_mentions(
                                find_header(self@.headers, "content-type"@),
                                needles@[j]@,
                            ),
                    decreases needles@.len() - k,
                {
                    let nd = chars_of(needles[k]);
                    if contains_exec(l.as_slice(), nd.as_slice()) {
                        assert(lower_mentions(
                            find_header(self@.headers, "content-type"@),
                            needles@[k as int]@,
                        ));
                        return true;
                    }
                    k = k + 1;
                }
                false
            },
            None => false,
        }
    }

    /// The content type, lowercased, mentions `text/html`.
    pub fn is_html(&self) -> (b: bool)
        ensures
            b == lower_mentions(find_header(self@.headers, "content-type"@), "text/html"@),
    {
        self.content_type_mentions(&["text/html"])
    }

    /// The content type, lowercased, mentions `application/json`.
    pub fn is_json(&self) -> (b: bool)
        ensures
            b == lower_mentions(find_header(self@.headers, "content-type"@), "application/json"@),
    {
        self.content_type_mentions(&["application/json"])
    }

    /// The content type, lowercased, mentions `application/xml` or `text/xml`.
    pub fn is_xml(&self) -> (b: bool)
        ensures
            b == (lower_mentions(find_header(self@.headers, "content-type"@), "application/xml"@)
                || lower_mentions(find_header(self@.headers, "content-type"@), "text/xml"@)),
    {
        self.content_type_mentions(&["application/xml", "text/xml"])
    }

    /// Body length in bytes of its UTF-8 encoding.
    pub fn body_size(&self) -> (n: usize)
        ensures
            n == utf8_len(self@.body) as usize,
    {
        byte_len(self.body.as_str())
    }

    /// Number of whitespace-separated words in the body.
    pub fn word_count(&self) -> (n: usize)
        ensures
            n == word_count(self@.body),
    {
        let s = chars_of(self.body.as_str());
        let mut count: usize = 0;
        let mut i: usize = 0;
        while i < s.len()
            invariant
                i <= s@.len(),
                count == word_count(s@.take(i as int)),
                count <= i,
            decreases s@.len() - i,
        {
            let ws = is_whitespace_exec(s[i]);
            let starts = !ws && (i == 0 || is_whitespace_exec(s[i - 1]));
            assert(s@.take(i + 1).drop_last() =~= s@.take(i as int));
            if starts {
                count = count + 1;
            }
            i = i + 1;
        }
        assert(s@.take(s@.len() as int) =~= s@);
        count
    }

    /// Number of lines in the body.
    pub fn line_count(&self) -> (n: usize)
        ensures
            n == lines(self@.body).len(),
    {
        let s = chars_of(self.body.as_str());
        let ls = lines_exec(s.as_slice());
        ls.len()
    }
}

} // verus!
