//! Scan requests, their results, and responses.

pub mod http_client;
pub mod response;

pub use response::HttpResponse;

use std::collections::hash_map::DefaultHasher;
use std::hash::Hasher;
use vstd::prelude::*;
use vstd::std_specs::hash::DefaultHasherAdditionalSpecFns;
use crate::text::{
    chars_of, hex_chars, str_eq, hexadecimal, lowercase, string_of, to_lowercase, to_uppercase,
    trim_end_char, trim_end_char_exec, uppercase,
};
use crate::urls::{parse_url, url_parses, url_path, url_replace_path, url_with_path};
use response::{clone_pairs, pairs_view};

verus! {

/// The abstract content of a `ScanRequest`.
pub struct RequestView {
    pub url: Seq<char>,
    pub method: Seq<char>,
    pub headers: Seq<(Seq<char>, Seq<char>)>,
    pub body: Option<Seq<char>>,
    pub follow_redirects: bool,
    pub max_redirects: u32,
}

/// An HTTP request to send: URL, method, headers in order, optional body and
/// redirect policy.
#[derive(Debug)]
pub struct ScanRequest {
    pub url: String,
    pub method: String,
    pub headers: Vec<(String, String)>,
    pub body: Option<String>,
    pub follow_redirects: bool,
    pub max_redirects: u32,
}

pub open spec fn opt_view(o: Option<String>) -> Option<Seq<char>> {
    match o {
        Some(s) => Some(s@),
        None => None,
    }
}

impl View for ScanRequest {
    type V = RequestView;

    open spec fn view(&self) -> RequestView {
        RequestView {
            url: self.url@,
            method: self.method@,
            headers: pairs_view(self.headers@),
            body: opt_view(self.body),
            follow_redirects: self.follow_redirects,
            max_redirects: self.max_redirects,
        }
    }
}

impl Clone for ScanRequest {
    fn clone(&self) -> (r: Self)
        ensures
            r@ == self@,
    {
        ScanRequest {
            url: self.url.clone(),
            method: self.method.clone(),
            headers: clone_pairs(&self.headers),
            body: match &self.body {
                Some(b) => Some(b.clone()),
                None => None,
            },
            follow_redirects: self.follow_redirects,
            max_redirects: self.max_redirects,
        }
    }
}

/// The URL used for deduplication: when it parses, its path loses trailing
/// slashes (an empty path becoming `/`) and the URL is re-serialized; when it
/// does not parse, the text loses trailing slashes.
pub open spec fn canonical_url(url: Seq<char>) -> Seq<char> {
    if url_parses(url) {
        let p = trim_end_char(url_path(url), '/');
        url_with_path(
            url,
            if p.len() == 0 {
                "/"@
            } else {
                p
            },
        )
    } else {
        trim_end_char(url, '/')
    }
}

/// Headers that vary with the client but not with the response, left out of
/// the cluster key.
pub open spec fn ignored_for_clustering(name: Seq<char>) -> bool {
    let l = lowercase(name);
    l == "user-agent"@ || l == "accept-language"@ || l == "accept-encoding"@
}

/// The headers that take part in the cluster key, in their order.
pub open spec fn clustered_headers(hs: Seq<(Seq<char>, Seq<char>)>) -> Seq<(Seq<char>, Seq<char>)>
    decreases hs.len(),
{
    if hs.len() == 0 {
        hs
    } else if ignored_for_clustering(hs.last().0) {
        clustered_headers(hs.drop_last())
    } else {
        clustered_headers(hs.drop_last()).push(hs.last())
    }
}

/// Lexicographic order of code points.
pub open spec fn seq_lt(a: Seq<char>, b: Seq<char>) -> bool
    decreases a.len(),
{
    if a.len() == 0 {
        b.len() > 0
    } else if b.len() == 0 {
        false
    } else if a[0] != b[0] {
        (a[0] as u32) < (b[0] as u32)
    } else {
        seq_lt(a.drop_first(), b.drop_first())
    }
}

/// Index before which `h` is inserted into `sorted`: the first entry whose
/// name is greater than `h`'s, so equal names keep their order.
pub open spec fn insert_position(sorted: Seq<(Seq<char>, Seq<char>)>, h: (Seq<char>, Seq<char>)) -> int
    decreases sorted.len(),
{
    if sorted.len() == 0 {
        0
    } else if seq_lt(h.0, sorted[0].0) {
        0
    } else {
        1 + insert_position(sorted.drop_first(), h)
    }
}

/// Headers sorted by name, stably.
pub open spec fn sort_by_name(hs: Seq<(Seq<char>, Seq<char>)>) -> Seq<(Seq<char>, Seq<char>)>
    decreases hs.len(),
{
    if hs.len() == 0 {
        hs
    } else {
        let s = sort_by_name(hs.drop_last());
        s.insert(insert_position(s, hs.last()), hs.last())
    }
}

/// The strings hashed for a header list: each name lowercased, then its value.
pub open spec fn header_key_parts(hs: Seq<(Seq<char>, Seq<char>)>) -> Seq<Seq<char>>
    decreases hs.len(),
{
    if hs.len() == 0 {
        Seq::empty()
    } else {
        header_key_parts(hs.drop_last()).push(lowercase(hs.last().0)).push(hs.last().1)
    }
}

/// The strings hashed into a request's cluster key, in order.
pub open spec fn key_parts(r: RequestView) -> Seq<Seq<char>> {
    let base = seq![canonical_url(r.url), uppercase(r.method)] + header_key_parts(
        sort_by_name(clustered_headers(r.headers)),
    );
    match r.body {
        Some(b) => base.push(b),
        None => base,
    }
}

/// The byte writes that hashing a string makes (std's `Hash for str`: its
/// UTF-8 bytes, then `0xff`).
pub open spec fn str_writes(s: Seq<char>) -> Seq<Seq<u8>> {
    seq![vstd::utf8::encode_utf8(s), seq![0xffu8]]
}

/// The byte writes that hashing the strings `parts` in order makes.
pub open spec fn writes_of(parts: Seq<Seq<char>>) -> Seq<Seq<u8>>
    decreases parts.len(),
{
    if parts.len() == 0 {
        Seq::empty()
    } else {
        writes_of(parts.drop_last()) + str_writes(parts.last())
    }
}

/// The cluster key: the lowercase hex of the `DefaultHasher` digest of the
/// key parts.
pub open spec fn cluster_key_of(r: RequestView) -> Seq<char> {
    hexadecimal(DefaultHasher::spec_finish(writes_of(key_parts(r))) as nat)
}

pub(crate) fn hash_str(h: &mut DefaultHasher, s: &str)
    ensures
        final(h)@ == old(h)@ + str_writes(s@),
{
    h.write(s.as_bytes());
    let mut ff: Vec<u8> = Vec::new();
    ff.push(0xffu8);
    h.write(ff.as_slice());
    assert(final(h)@ =~= old(h)@ + str_writes(s@));
}

/// Code-point lexicographic comparison.
pub(crate) fn chars_lt(a: &[char], b: &[char]) -> (r: bool)
    ensures
        r == seq_lt(a@, b@),
    decreases a@.len(),
{
    if a.len() == 0 {
        b.len() > 0
    } else if b.len() == 0 {
        false
    } else if a[0] != b[0] {
        (a[0] as u32) < (b[0] as u32)
    } else {
        let ra = &a[1..a.len()];
        let rb = &b[1..b.len()];
        assert(ra@ =~= a@.drop_first());
        assert(rb@ =~= b@.drop_first());
        chars_lt(ra, rb)
    }
}

impl ScanRequest {
    /// A `GET` request for `url` with no headers or body, following up to
    /// three redirects.
    pub fn new(url: String) -> (r: Self)
        ensures
            r.url == url,
            r@.method == "GET"@,
            r.headers@.len() == 0,
            r.body is None,
            r.follow_redirects,
            r.max_redirects == 3,
    {
        ScanRequest {
            url,
            method: "GET".to_string(),
            headers: Vec::new(),
            body: None,
            follow_redirects: true,
            max_redirects: 3,
        }
    }

    pub fn with_method(self, method: String) -> (r: Self)
        ensures
            r == (ScanRequest { method, ..self }),
    {
        ScanRequest { method, ..self }
    }

    pub fn with_headers(self, headers: Vec<(String, String)>) -> (r: Self)
        ensures
            r == (ScanRequest { headers, ..self }),
    {
        ScanRequest { headers, ..self }
    }

    pub fn with_body(self, body: String) -> (r: Self)
        ensures
            r == (ScanRequest { body: Some(body), ..self }),
    {
        ScanRequest { body: Some(body), ..self }
    }

    pub fn with_redirects(self, follow: bool, max: u32) -> (r: Self)
        ensures
            r == (ScanRequest { follow_redirects: follow, max_redirects: max, ..self }),
    {
        ScanRequest { follow_redirects: follow, max_redirects: max, ..self }
    }

    /// The URL with trailing slashes of its path removed.
    fn canonical_url(&self) -> (s: String)
        ensures
            s@ == canonical_url(self@.url),
    {
        match parse_url(self.url.as_str()) {
            Some(parts) => {
                let path = chars_of(parts.path.as_str());
                let trimmed = trim_end_char_exec(path.as_slice(), '/');
                let canonical_path = if trimmed.len() == 0 {
                    "/".to_string()
                } else {
                    string_of(trimmed)
                };
                match url_replace_path(self.url.as_str(), canonical_path.as_str()) {
                    Some(t) => t,
                    None => {
                        assert(false);
                        String::new()
                    },
                }
            },
            None => {
                let u = chars_of(self.url.as_str());
                string_of(trim_end_char_exec(u.as_slice(), '/'))
            },
        }
    }

    /// The key under which equivalent requests share a cached response: a
    /// digest of the canonical URL, the uppercased method, the headers other
    /// than `User-Agent`, `Accept-Language` and `Accept-Encoding` (sorted by
    /// name, names lowercased), and the body.
    pub fn cluster_key(&self) -> (k: String)
        ensures
            k@ == cluster_key_of(self@),
    {
        let mut h = DefaultHasher::new();
        let url = self.canonical_url();
        hash_str(&mut h, url.as_str());
        let method = to_uppercase(self.method.as_str());
        hash_str(&mut h, method.as_str());
        let ghost base: Seq<Seq<char>> = seq![canonical_url(self@.url), uppercase(self@.method)];
        assert(writes_of(base) =~= str_writes(base[0]) + str_writes(base[1])) by {
            reveal_with_fuel(writes_of, 3);
            assert(base.drop_last().drop_last() =~= Seq::<Seq<char>>::empty());
            assert(base.drop_last() =~= seq![base[0]]);
        }
        assert(h@ =~= writes_of(base));
        let sorted = self.sorted_clustered_headers();
        let ghost hs = sort_by_name(clustered_headers(self@.headers));
        let mut i: usize = 0;
        while i < sorted.len()
            invariant
                pairs_view(sorted@) == hs,
                i <= sorted@.len(),
                h@ == writes_of(base + header_key_parts(hs.take(i as int))),
            decreases sorted@.len() - i,
        {
            let name = to_lowercase(sorted[i].0.as_str());
            let ghost before = base + header_key_parts(hs.take(i as int));
            hash_str(&mut h, name.as_str());
            hash_str(&mut h, sorted[i].1.as_str());
            proof {
                assert(hs.take(i + 1).drop_last() =~= hs.take(i as int));
                assert(hs[i as int] == (sorted@[i as int].0@, sorted@[i as int].1@));
                let after = base + header_key_parts(hs.take(i + 1));
                assert(name@ == lowercase(hs[i as int].0));
                assert(after =~= before.push(lowercase(hs[i as int].0)).push(hs[i as int].1));
                assert(after.drop_last() =~= before.push(lowercase(hs[i as int].0)));
                assert(after.drop_last().drop_last() =~= before);
                assert(writes_of(after) == writes_of(after.drop_last()) + str_writes(after.last()));
                assert(writes_of(after.drop_last()) == writes_of(before) + str_writes(
                    lowercase(hs[i as int].0),
                ));
            }
            i = i + 1;
        }
        assert(hs.take(hs.len() as int) =~= hs);
        let ghost parts = base + header_key_parts(hs);
        match &self.body {
            Some(b) => {
                hash_str(&mut h, b.as_str());
                assert(parts.push(b@).drop_last() =~= parts);
            },
            None => {},
        }
        assert(key_parts(self@) =~= match self@.body {
            Some(b) => parts.push(b),
            None => parts,
        });
        let d = h.finish();
        let v = hex_chars(d);
        string_of(v.as_slice())
    }

    /// The headers that take part in the cluster key, sorted by name.
    fn sorted_clustered_headers(&self) -> (out: Vec<(String, String)>)
        ensures
            pairs_view(out@) == sort_by_name(clustered_headers(self@.headers)),
    {
        let mut out: Vec<(String, String)> = Vec::new();
        let ghost hs = self@.headers;
        let mut i: usize = 0;
        while i < self.headers.len()
            invariant
                hs == self@.headers,
                i <= self.headers@.len(),
                pairs_view(out@) == sort_by_name(clustered_headers(hs.take(i as int))),
            decreases self.headers@.len() - i,
        {
            let ghost prefix = hs.take(i as int);
            let ghost next = hs.take(i + 1);
            assert(next.drop_last() =~= prefix);
            assert(next.last() == hs[i as int]);
            assert(hs.len() == self.headers@.len());
            assert(hs[i as int] == (self.headers@[i as int].0@, self.headers@[i as int].1@));
            let name = to_lowercase(self.headers[i].0.as_str());
            let ignored = str_eq(name.as_str(), "user-agent") || str_eq(
                name.as_str(),
                "accept-language",
            ) || str_eq(name.as_str(), "accept-encoding");
            assert(ignored == ignored_for_clustering(hs[i as int].0));
            if !ignored {
                let kc = chars_of(self.headers[i].0.as_str());
                let ghost sorted = pairs_view(out@);
                let mut pos: usize = 0;
                assert(sorted.skip(0) =~= sorted);
                if out.len() == 0 {
                    assert(sorted.skip(0) =~= Seq::<(Seq<char>, Seq<char>)>::empty());
                }
                while pos < out.len()
                    invariant
                        sorted == pairs_view(out@),
                        pos <= out@.len(),
                        kc@ == hs[i as int].0,
                        insert_position(sorted, hs[i as int]) == pos + insert_position(
                            sorted.skip(pos as int),
                            hs[i as int],
                        ),
                    ensures
                        pos <= out@.len(),
                        insert_position(sorted, hs[i as int]) == pos,
                    decreases out@.len() - pos,
                {
                    let oc = chars_of(out[pos].0.as_str());
                    assert(sorted.skip(pos as int)[0] == sorted[pos as int]);
                    if chars_lt(kc.as_slice(), oc.as_slice()) {
                        assert(insert_position(sorted.skip(pos as int), hs[i as int]) == 0);
                        break;
                    }
                    if pos + 1 == out.len() {
                        assert(sorted.skip(pos + 1) =~= Seq::<(Seq<char>, Seq<char>)>::empty());
                    }
                    assert(sorted.skip(pos as int).drop_first() =~= sorted.skip(pos + 1));
                    pos = pos + 1;
                }
                out.insert(pos, (self.headers[i].0.clone(), self.headers[i].1.clone()));
                assert(pairs_view(out@) =~= sorted.insert(pos as int, hs[i as int]));
                assert(clustered_headers(next) == clustered_headers(prefix).push(hs[i as int]));
                assert(clustered_headers(next).drop_last() =~= clustered_headers(prefix));
            } else {
                assert(clustered_headers(next) == clustered_headers(prefix));
            }
            i = i + 1;
        }
        assert(hs.take(hs.len() as int) =~= hs);
        out
    }
}

/// Adding a `User-Agent`, `Accept-Language` or `Accept-Encoding` header
/// (in any letter case) does not change a request's cluster key.
pub proof fn law_cluster_key_ignores_client_headers(r: RequestView, name: Seq<char>, value: Seq<char>)
    requires
        ignored_for_clustering(name),
    ensures
        cluster_key_of(RequestView { headers: r.headers.push((name, value)), ..r }) == cluster_key_of(r),
{
    let hs = r.headers.push((name, value));
    assert(hs.drop_last() =~= r.headers);
    assert(clustered_headers(hs) == clustered_headers(r.headers));
    assert(key_parts(RequestView { headers: hs, ..r }) == key_parts(r));
}

/// Requests whose methods differ only in letter case share a cluster key.
pub proof fn law_cluster_key_ignores_method_case(r: RequestView, method: Seq<char>)
    requires
        uppercase(method) == uppercase(r.method),
    ensures
        cluster_key_of(RequestView { method, ..r }) == cluster_key_of(r),
{
    assert(key_parts(RequestView { method, ..r }) == key_parts(r));
}

/// No header name occurs twice.
pub open spec fn names_distinct(hs: Seq<(Seq<char>, Seq<char>)>) -> bool {
    forall|a: int, b: int| 0 <= a < hs.len() && 0 <= b < hs.len() && a != b ==> #[trigger] hs[a].0 != #[trigger] hs[b].0
}

/// Headers in order of name: no name is less than an earlier one.
pub open spec fn sorted_by_name(hs: Seq<(Seq<char>, Seq<char>)>) -> bool {
    forall|a: int, b: int| 0 <= a < b < hs.len() ==> !seq_lt(#[trigger] hs[b].0, #[trigger] hs[a].0)
}

proof fn lemma_seq_lt_irreflexive(a: Seq<char>)
    ensures
        !seq_lt(a, a),
    decreases a.len(),
{
    if a.len() > 0 {
        lemma_seq_lt_irreflexive(a.drop_first());
    }
}

proof fn lemma_seq_lt_asymmetric(a: Seq<char>, b: Seq<char>)
    ensures
        !(seq_lt(a, b) && seq_lt(b, a)),
    decreases a.len(),
{
    if a.len() > 0 && b.len() > 0 && a[0] == b[0] {
        lemma_seq_lt_asymmetric(a.drop_first(), b.drop_first());
    }
}

proof fn lemma_seq_lt_total(a: Seq<char>, b: Seq<char>)
    ensures
        a == b || seq_lt(a, b) || seq_lt(b, a),
    decreases a.len(),
{
    if a.len() > 0 && b.len() > 0 && a[0] == b[0] {
        lemma_seq_lt_total(a.drop_first(), b.drop_first());
        if a.drop_first() == b.drop_first() {
            assert(a =~= seq![a[0]] + a.drop_first());
            assert(b =~= seq![b[0]] + b.drop_first());
        }
    } else if a.len() > 0 && b.len() > 0 {
        vstd::utf8::char_u32_cast(a[0], a[0] as u32);
        vstd::utf8::char_u32_cast(b[0], b[0] as u32);
    } else if a.len() == 0 && b.len() == 0 {
        assert(a =~= b);
    }
}

proof fn lemma_seq_lt_transitive(a: Seq<char>, b: Seq<char>, c: Seq<char>)
    requires
        seq_lt(a, b),
        seq_lt(b, c),
    ensures
        seq_lt(a, c),
    decreases a.len(),
{
    if a.len() > 0 && b.len() > 0 && c.len() > 0 && a[0] == b[0] && b[0] == c[0] {
        lemma_seq_lt_transitive(a.drop_first(), b.drop_first(), c.drop_first());
    }
}

/// The facts about the place a header is inserted at in sorted headers.
proof fn lemma_insert_position(sorted: Seq<(Seq<char>, Seq<char>)>, h: (Seq<char>, Seq<char>))
    requires
        sorted_by_name(sorted),
    ensures
        0 <= insert_position(sorted, h) <= sorted.len(),
        forall|k: int| 0 <= k < insert_position(sorted, h) ==> !seq_lt(h.0, #[trigger] sorted[k].0),
        forall|k: int| insert_position(sorted, h) <= k < sorted.len() ==> seq_lt(h.0, #[trigger] sorted[k].0),
    decreases sorted.len(),
{
    if sorted.len() > 0 && !seq_lt(h.0, sorted[0].0) {
        let t = sorted.drop_first();
        assert(sorted_by_name(t)) by {
            assert forall|a: int, b: int| 0 <= a < b < t.len() implies !seq_lt(#[trigger] t[b].0, #[trigger] t[a].0) by {
                assert(t[a] == sorted[a + 1] && t[b] == sorted[b + 1]);
            }
        }
        lemma_insert_position(t, h);
        assert forall|k: int| 0 <= k < insert_position(sorted, h) implies !seq_lt(h.0, #[trigger] sorted[k].0) by {
            if k > 0 {
                assert(sorted[k] == t[k - 1]);
            }
        }
        assert forall|k: int| insert_position(sorted, h) <= k < sorted.len() implies seq_lt(h.0, #[trigger] sorted[k].0) by {
            assert(sorted[k] == t[k - 1]);
        }
    } else if sorted.len() > 0 {
        assert forall|k: int| 0 <= k < sorted.len() implies seq_lt(h.0, #[trigger] sorted[k].0) by {
            if k > 0 {
                assert(!seq_lt(sorted[k].0, sorted[0].0));
                lemma_seq_lt_total(sorted[k].0, sorted[0].0);
                if sorted[k].0 != sorted[0].0 {
                    lemma_seq_lt_transitive(h.0, sorted[0].0, sorted[k].0);
                }
            }
        }
    }
}

/// Sorting by name gives headers in order of name, holding only headers of
/// the input, as many as the input has.
proof fn lemma_sort_by_name(hs: Seq<(Seq<char>, Seq<char>)>)
    ensures
        sorted_by_name(sort_by_name(hs)),
        sort_by_name(hs).len() == hs.len(),
        forall|x: (Seq<char>, Seq<char>)| sort_by_name(hs).contains(x) <==> hs.contains(x),
    decreases hs.len(),
{
    if hs.len() > 0 {
        let s = sort_by_name(hs.drop_last());
        let h = hs.last();
        lemma_sort_by_name(hs.drop_last());
        lemma_insert_position(s, h);
        let p = insert_position(s, h);
        let t = s.insert(p, h);
        assert(t == sort_by_name(hs));
        assert forall|a: int, b: int| 0 <= a < b < t.len() implies !seq_lt(#[trigger] t[b].0, #[trigger] t[a].0) by {
            if b < p {
                assert(t[a] == s[a] && t[b] == s[b]);
            } else if b == p {
                assert(t[a] == s[a]);
                assert(!seq_lt(h.0, s[a].0));
            } else if a < p {
                assert(t[a] == s[a] && t[b] == s[b - 1]);
                if a < b - 1 {
                    assert(!seq_lt(s[b - 1].0, s[a].0));
                } else {
                    lemma_seq_lt_irreflexive(s[a].0);
                }
            } else if a == p {
                assert(t[b] == s[b - 1]);
                assert(seq_lt(h.0, s[b - 1].0));
                lemma_seq_lt_asymmetric(h.0, s[b - 1].0);
            } else {
                assert(t[a] == s[a - 1] && t[b] == s[b - 1]);
            }
        }
        assert forall|x: (Seq<char>, Seq<char>)| t.contains(x) <==> hs.contains(x) by {
            if t.contains(x) {
                let k = choose|k: int| 0 <= k < t.len() && t[k] == x;
                if k < p {
                    assert(t[k] == s[k]);
                    assert(s.contains(x));
                    assert(hs.drop_last().contains(x));
                    let m = choose|m: int| 0 <= m < hs.drop_last().len() && hs.drop_last()[m] == x;
                    assert(hs.drop_last()[m] == hs[m]);
                    assert(hs[m] == x);
                } else if k == p {
                    assert(hs[hs.len() - 1] == x);
                } else {
                    assert(t[k] == s[k - 1]);
                    assert(s.contains(x));
                    assert(hs.drop_last().contains(x));
                    let m = choose|m: int| 0 <= m < hs.drop_last().len() && hs.drop_last()[m] == x;
                    assert(hs.drop_last()[m] == hs[m]);
                    assert(hs[m] == x);
                }
            }
            if hs.contains(x) {
                let m = choose|m: int| 0 <= m < hs.len() && hs[m] == x;
                if m == hs.len() - 1 {
                    assert(t[p] == x);
                } else {
                    assert(hs.drop_last()[m] == x);
                    assert(hs.drop_last().contains(x));
                    let k = choose|k: int| 0 <= k < s.len() && s[k] == x;
                    if k < p {
                        assert(t[k] == x);
                    } else {
                        assert(t[k + 1] == x);
                    }
                }
            }
        }
    }
}

/// Leaving out the client headers keeps the other headers, and only them.
proof fn lemma_clustered_headers(hs: Seq<(Seq<char>, Seq<char>)>)
    ensures
        forall|x: (Seq<char>, Seq<char>)| #[trigger] clustered_headers(hs).contains(x) <==> (hs.contains(x) && !ignored_for_clustering(x.0)),
        names_distinct(hs) ==> names_distinct(clustered_headers(hs)),
    decreases hs.len(),
{
    if hs.len() > 0 {
        let d = hs.drop_last();
        let c = clustered_headers(d);
        lemma_clustered_headers(d);
        let h = hs.last();
        assert forall|x: (Seq<char>, Seq<char>)| hs.contains(x) <==> (d.contains(x) || x == h) by {
            if hs.contains(x) {
                let m = choose|m: int| 0 <= m < hs.len() && hs[m] == x;
                if m < hs.len() - 1 {
                    assert(d[m] == x);
                }
            }
            if d.contains(x) {
                let m = choose|m: int| 0 <= m < d.len() && d[m] == x;
                assert(hs[m] == x);
            }
            if x == h {
                assert(hs[hs.len() - 1] == x);
            }
        }
        if !ignored_for_clustering(h.0) {
            let t = c.push(h);
            assert forall|x: (Seq<char>, Seq<char>)| t.contains(x) <==> (c.contains(x) || x == h) by {
                if t.contains(x) {
                    let k = choose|k: int| 0 <= k < t.len() && t[k] == x;
                    if k < c.len() {
                        assert(c[k] == x);
                    }
                }
                if c.contains(x) {
                    let k = choose|k: int| 0 <= k < c.len() && c[k] == x;
                    assert(t[k] == x);
                }
                if x == h {
                    assert(t[c.len() as int] == x);
                }
            }
            if names_distinct(hs) {
                assert(names_distinct(d)) by {
                    assert forall|a: int, b: int| 0 <= a < d.len() && 0 <= b < d.len() && a != b implies #[trigger] d[a].0 != #[trigger] d[b].0 by {
                        assert(d[a] == hs[a] && d[b] == hs[b]);
                    }
                }
                assert forall|a: int, b: int| 0 <= a < t.len() && 0 <= b < t.len() && a != b implies #[trigger] t[a].0 != #[trigger] t[b].0 by {
                    if a < c.len() && b < c.len() {
                        assert(t[a] == c[a] && t[b] == c[b]);
                    } else if a < c.len() {
                        assert(t[a] == c[a] && c.contains(c[a]));
                        assert(d.contains(c[a]));
                        let m = choose|m: int| 0 <= m < d.len() && d[m] == c[a];
                        assert(hs[m] == d[m]);
                        assert(hs[m].0 != hs[hs.len() - 1].0);
                    } else if b < c.len() {
                        assert(t[b] == c[b] && c.contains(c[b]));
                        assert(d.contains(c[b]));
                        let m = choose|m: int| 0 <= m < d.len() && d[m] == c[b];
                        assert(hs[m] == d[m]);
                        assert(hs[m].0 != hs[hs.len() - 1].0);
                    }
                }
            }
        } else {
            if names_distinct(hs) {
                assert(names_distinct(d)) by {
                    assert forall|a: int, b: int| 0 <= a < d.len() && 0 <= b < d.len() && a != b implies #[trigger] d[a].0 != #[trigger] d[b].0 by {
                        assert(d[a] == hs[a] && d[b] == hs[b]);
                    }
                }
            }
        }
    }
}

/// Two lists in order of name, without repeated names, that hold the same
/// headers are the same list.
proof fn lemma_sorted_unique(s1: Seq<(Seq<char>, Seq<char>)>, s2: Seq<(Seq<char>, Seq<char>)>)
    requires
        sorted_by_name(s1),
        sorted_by_name(s2),
        names_distinct(s1),
        names_distinct(s2),
        forall|x: (Seq<char>, Seq<char>)| s1.contains(x) <==> s2.contains(x),
    ensures
        s1 == s2,
    decreases s1.len(),
{
    if s1.len() == 0 {
        if s2.len() > 0 {
            assert(s2.contains(s2[0]));
        }
        assert(s1 =~= s2);
    } else {
        assert(s1.contains(s1[0]));
        assert(s2.len() > 0);
        assert(s2.contains(s2[0]));
        let i = choose|i: int| 0 <= i < s1.len() && s1[i] == s2[0];
        let j = choose|j: int| 0 <= j < s2.len() && s2[j] == s1[0];
        if i > 0 {
            assert(!seq_lt(s1[i].0, s1[0].0));
        }
        if j > 0 {
            assert(!seq_lt(s2[j].0, s2[0].0));
        }
        lemma_seq_lt_irreflexive(s1[0].0);
        lemma_seq_lt_total(s1[0].0, s2[0].0);
        assert(s1[0].0 == s2[0].0);
        assert(i == 0);
        let t1 = s1.drop_first();
        let t2 = s2.drop_first();
        assert(sorted_by_name(t1)) by {
            assert forall|a: int, b: int| 0 <= a < b < t1.len() implies !seq_lt(#[trigger] t1[b].0, #[trigger] t1[a].0) by {
                assert(t1[a] == s1[a + 1] && t1[b] == s1[b + 1]);
            }
        }
        assert(sorted_by_name(t2)) by {
            assert forall|a: int, b: int| 0 <= a < b < t2.len() implies !seq_lt(#[trigger] t2[b].0, #[trigger] t2[a].0) by {
                assert(t2[a] == s2[a + 1] && t2[b] == s2[b + 1]);
            }
        }
        assert(names_distinct(t1)) by {
            assert forall|a: int, b: int| 0 <= a < t1.len() && 0 <= b < t1.len() && a != b implies #[trigger] t1[a].0 != #[trigger] t1[b].0 by {
                assert(t1[a] == s1[a + 1] && t1[b] == s1[b + 1]);
            }
        }
        assert(names_distinct(t2)) by {
            assert forall|a: int, b: int| 0 <= a < t2.len() && 0 <= b < t2.len() && a != b implies #[trigger] t2[a].0 != #[trigger] t2[b].0 by {
                assert(t2[a] == s2[a + 1] && t2[b] == s2[b + 1]);
            }
        }
        assert forall|x: (Seq<char>, Seq<char>)| t1.contains(x) <==> t2.contains(x) by {
            if t1.contains(x) {
                let k = choose|k: int| 0 <= k < t1.len() && t1[k] == x;
                assert(s1[k + 1] == x);
                assert(s1.contains(x));
                let m = choose|m: int| 0 <= m < s2.len() && s2[m] == x;
                assert(x.0 != s1[0].0);
                assert(m != 0);
                assert(t2[m - 1] == x);
            }
            if t2.contains(x) {
                let k = choose|k: int| 0 <= k < t2.len() && t2[k] == x;
                assert(s2[k + 1] == x);
                assert(s2.contains(x));
                let m = choose|m: int| 0 <= m < s1.len() && s1[m] == x;
                assert(x.0 != s2[0].0);
                assert(m != 0);
                assert(t1[m - 1] == x);
            }
        }
        lemma_sorted_unique(t1, t2);
        assert(s1 =~= seq![s1[0]] + t1);
        assert(s2 =~= seq![s2[0]] + t2);
    }
}

/// The cluster key does not depend on the order of the headers: requests
/// whose headers, each name once, are the same name-value pairs in any
/// order, and that agree on canonical URL, method up to letter case and
/// body, share a cluster key.
pub proof fn law_cluster_key_ignores_header_order(r1: RequestView, r2: RequestView)
    requires
        canonical_url(r1.url) == canonical_url(r2.url),
        uppercase(r1.method) == uppercase(r2.method),
        r1.body == r2.body,
        names_distinct(r1.headers),
        names_distinct(r2.headers),
        forall|h: (Seq<char>, Seq<char>)| r1.headers.contains(h) <==> r2.headers.contains(h),
    ensures
        cluster_key_of(r1) == cluster_key_of(r2),
{
    let c1 = clustered_headers(r1.headers);
    let c2 = clustered_headers(r2.headers);
    lemma_clustered_headers(r1.headers);
    lemma_clustered_headers(r2.headers);
    lemma_sort_by_name(c1);
    lemma_sort_by_name(c2);
    let s1 = sort_by_name(c1);
    let s2 = sort_by_name(c2);
    assert forall|x: (Seq<char>, Seq<char>)| s1.contains(x) <==> s2.contains(x) by {
        assert(s1.contains(x) <==> c1.contains(x));
        assert(s2.contains(x) <==> c2.contains(x));
        assert(c1.contains(x) <==> (r1.headers.contains(x) && !ignored_for_clustering(x.0)));
        assert(c2.contains(x) <==> (r2.headers.contains(x) && !ignored_for_clustering(x.0)));
    }
    lemma_sorted_distinct(c1);
    lemma_sorted_distinct(c2);
    lemma_sorted_unique(s1, s2);
    assert(key_parts(r1) == key_parts(r2));
}

/// Sorting keeps names distinct.
proof fn lemma_sorted_distinct(hs: Seq<(Seq<char>, Seq<char>)>)
    requires
        names_distinct(hs),
    ensures
        names_distinct(sort_by_name(hs)),
    decreases hs.len(),
{
    if hs.len() > 0 {
        let d = hs.drop_last();
        let h = hs.last();
        assert(names_distinct(d)) by {
            assert forall|a: int, b: int| 0 <= a < d.len() && 0 <= b < d.len() && a != b implies #[trigger] d[a].0 != #[trigger] d[b].0 by {
                assert(d[a] == hs[a] && d[b] == hs[b]);
            }
        }
        lemma_sorted_distinct(d);
        lemma_sort_by_name(d);
        let s = sort_by_name(d);
        lemma_insert_position(s, h);
        let p = insert_position(s, h);
        let t = s.insert(p, h);
        assert forall|k: int| 0 <= k < s.len() implies #[trigger] s[k].0 != h.0 by {
            assert(s.contains(s[k]));
            assert(d.contains(s[k]));
            let m = choose|m: int| 0 <= m < d.len() && d[m] == s[k];
            assert(hs[m] == d[m]);
        }
        assert forall|a: int, b: int| 0 <= a < t.len() && 0 <= b < t.len() && a != b implies #[trigger] t[a].0 != #[trigger] t[b].0 by {
            let ea = if a < p { a } else { a - 1 };
            let eb = if b < p { b } else { b - 1 };
            if a != p && b != p {
                assert(t[a] == s[ea] && t[b] == s[eb]);
            } else if a == p {
                assert(t[b] == s[eb]);
            } else {
                assert(t[a] == s[ea]);
            }
        }
    }
}

/// Requests that agree on their canonical URL, their method up to letter
/// case, their body and their headers other than `User-Agent`,
/// `Accept-Language` and `Accept-Encoding` share a cluster key, whatever
/// their redirect policy.
pub proof fn law_cluster_key_of_equal_parts(r1: RequestView, r2: RequestView)
    requires
        canonical_url(r1.url) == canonical_url(r2.url),
        uppercase(r1.method) == uppercase(r2.method),
        r1.body == r2.body,
        clustered_headers(r1.headers) == clustered_headers(r2.headers),
    ensures
        cluster_key_of(r1) == cluster_key_of(r2),
{
    assert(key_parts(r1) == key_parts(r2));
}

/// Requests whose URLs have the same canonical form share a cluster key.
pub proof fn law_cluster_key_follows_canonical_url(r: RequestView, url: Seq<char>)
    requires
        canonical_url(url) == canonical_url(r.url),
    ensures
        cluster_key_of(RequestView { url, ..r }) == cluster_key_of(r),
{
    assert(key_parts(RequestView { url, ..r }) == key_parts(r));
}

} // verus!

verus! {

/// Extracted values under the name of the extractor that produced them.
pub open spec fn extracted_view(v: Seq<(String, Vec<String>)>) -> Seq<(Seq<char>, Seq<Seq<char>>)> {
    v.map_values(|p: (String, Vec<String>)| (p.0@, p.1@.map_values(|s: String| s@)))
}

/// The outcome of one request of a template: what was sent and received,
/// whether the matchers matched, and what the extractors found.
#[derive(Debug)]
pub struct ScanResult {
    pub request: ScanRequest,
    pub response: HttpResponse,
    pub matched: bool,
    pub extracted_data: Vec<(String, Vec<String>)>,
    pub template_id: String,
    pub matcher_name: Option<String>,
}

impl ScanResult {
    /// An unmatched result with nothing extracted.
    pub fn new(request: ScanRequest, response: HttpResponse, template_id: String) -> (r: Self)
        ensures
            r.request == request,
            r.response == response,
            !r.matched,
            r.extracted_data@.len() == 0,
            r.template_id == template_id,
            r.matcher_name is None,
    {
        ScanResult {
            request,
            response,
            matched: false,
            extracted_data: Vec::new(),
            template_id,
            matcher_name: None,
        }
    }

    /// The result marked as matched by the named matcher.
    pub fn with_match(self, matcher_name: Option<String>) -> (r: Self)
        ensures
            r == (ScanResult { matched: true, matcher_name, ..self }),
    {
        ScanResult { matched: true, matcher_name, ..self }
    }

    /// The result with the given extracted data.
    pub fn with_extracted_data(self, data: Vec<(String, Vec<String>)>) -> (r: Self)
        ensures
            r == (ScanResult { extracted_data: data, ..self }),
    {
        ScanResult { extracted_data: data, ..self }
    }
}

} // verus!
