//! Running a template against a target: base URLs, path resolution, the
//! requests a template request describes, and what a response yields.

use vstd::prelude::*;
use crate::cli::Config;
use crate::extractor::{
    extract_all_from, extraction_defined, ExtractError, ExtractErrorView, ExtractorEngine,
};
use crate::matcher::{
    matchers_outcome, strings_view, MatchError, MatchErrorView, MatchView,
    MatcherEngine,
};
use crate::raw_request::{
    build_vars, effective_port, host_of, hostname_of, insert_pair, insert_pair_exec,
    lemma_pair_index, pair_index, parse_raw_request, raw_request_view, substitute_vars,
    substituted, url_vars,
};
use crate::scanner::response::{pairs_view, ResponseView};
use crate::scanner::{extracted_view, opt_view, HttpResponse, RequestView, ScanRequest, ScanResult};
use crate::template::{Request, Template};
use crate::text::{
    chars_of, decimal, joined, starts_with, starts_with_exec, string_of, to_uppercase,
    trim_end_char, trim_end_char_exec, trim_start_char, trim_start_char_exec, uppercase,
};
use crate::urls::{parse_url, url_parses, url_path, url_scheme};

verus! {

/// Begins with `http://` or `https://`.
pub open spec fn is_absolute(s: Seq<char>) -> bool {
    starts_with(s, "http://"@) || starts_with(s, "https://"@)
}

fn is_absolute_exec(s: &[char]) -> (b: bool)
    ensures
        b == is_absolute(s@),
{
    let http = chars_of("http://");
    let https = chars_of("https://");
    starts_with_exec(s, http.as_slice()) || starts_with_exec(s, https.as_slice())
}

/// The base URL of a target: without trailing slashes, and with `https://`
/// put in front of a target that names no scheme.
pub open spec fn base_url_of(target: Seq<char>) -> Seq<char> {
    if is_absolute(target) {
        trim_end_char(target, '/')
    } else {
        "https://"@ + trim_end_char(target, '/')
    }
}

pub fn build_base_url(target: &str) -> (r: String)
    ensures
        r@ == base_url_of(target@),
{
    let tc = chars_of(target);
    let trimmed = trim_end_char_exec(tc.as_slice(), '/');
    if is_absolute_exec(tc.as_slice()) {
        string_of(trimmed)
    } else {
        let mut out = chars_of("https://");
        out.extend_from_slice(trimmed);
        string_of(out.as_slice())
    }
}

/// A template path made into a URL: the base URL's variables and then
/// `vars` substituted in; an absolute result as it is, otherwise joined to the
/// base URL (without trailing slashes) by one `/`, or the base URL alone when
/// nothing but slashes is left.
pub open spec fn resolved_path(path: Seq<char>, base: Seq<char>, vars: Seq<(Seq<char>, Seq<char>)>) -> Seq<char> {
    let resolved = substituted(path, url_vars(base) + vars);
    if is_absolute(resolved) {
        resolved
    } else {
        let b = trim_end_char(base, '/');
        let p = trim_start_char(resolved, '/');
        if p.len() == 0 {
            b
        } else {
            b + "/"@ + p
        }
    }
}

/// Substituting two variable lists in turn is substituting their
/// concatenation.
pub proof fn lemma_substituted_concat(t: Seq<char>, a: Seq<(Seq<char>, Seq<char>)>, b: Seq<(Seq<char>, Seq<char>)>)
    ensures
        substituted(substituted(t, a), b) == substituted(t, a + b),
    decreases b.len(),
{
    if b.len() == 0 {
        assert(a + b =~= a);
    } else {
        lemma_substituted_concat(t, a, b.drop_last());
        assert((a + b).drop_last() =~= a + b.drop_last());
        assert((a + b).last() == b.last());
    }
}

pub fn resolve_path(path: &str, base_url: &str, vars: &[(String, String)]) -> (r: String)
    ensures
        r@ == resolved_path(path@, base_url@, pairs_view(vars@)),
{
    let own = build_vars(base_url);
    let first = string_of(substitute_vars(path, own.as_slice()).as_slice());
    let resolved = substitute_vars(first.as_str(), vars);
    proof {
        lemma_substituted_concat(path@, url_vars(base_url@), pairs_view(vars@));
        assert(pairs_view(own@) == url_vars(base_url@));
    }
    if is_absolute_exec(resolved.as_slice()) {
        return string_of(resolved.as_slice());
    }
    let bc = chars_of(base_url);
    let b = trim_end_char_exec(bc.as_slice(), '/');
    let p = trim_start_char_exec(resolved.as_slice(), '/');
    if p.len() == 0 {
        string_of(b)
    } else {
        let mut out: Vec<char> = vstd::slice::slice_to_vec(b);
        out.push('/');
        let ghost mid = out@;
        out.extend_from_slice(p);
        proof {
            reveal_strlit("/");
        }
        assert(out@ =~= b@ + "/"@ + p@);
        string_of(out.as_slice())
    }
}

/// The pairs set into `acc` one by one, later ones replacing earlier ones of
/// the same name.
pub open spec fn insert_all(acc: Seq<(Seq<char>, Seq<char>)>, pairs: Seq<(Seq<char>, Seq<char>)>) -> Seq<(Seq<char>, Seq<char>)>
    decreases pairs.len(),
{
    if pairs.len() == 0 {
        acc
    } else {
        insert_pair(insert_all(acc, pairs.drop_last()), pairs.last().0, pairs.last().1)
    }
}

/// `acc` with `(k, v)` added unless a pair named `k` is there.
pub open spec fn insert_absent(acc: Seq<(Seq<char>, Seq<char>)>, k: Seq<char>, v: Seq<char>) -> Seq<(Seq<char>, Seq<char>)> {
    if pair_index(acc, k) < acc.len() {
        acc
    } else {
        acc.push((k, v))
    }
}

/// The pairs added one by one where their name is not there yet.
pub open spec fn insert_all_absent(acc: Seq<(Seq<char>, Seq<char>)>, pairs: Seq<(Seq<char>, Seq<char>)>) -> Seq<(Seq<char>, Seq<char>)>
    decreases pairs.len(),
{
    if pairs.len() == 0 {
        acc
    } else {
        insert_absent(insert_all_absent(acc, pairs.drop_last()), pairs.last().0, pairs.last().1)
    }
}

/// Sets every pair of `pairs` into `acc`, in order.
fn insert_all_exec(acc: &mut Vec<(String, String)>, pairs: &Vec<(String, String)>)
    ensures
        pairs_view(final(acc)@) == insert_all(pairs_view(old(acc)@), pairs_view(pairs@)),
{
    let ghost start = pairs_view(acc@);
    let ghost ps = pairs_view(pairs@);
    assert(ps.take(0) =~= Seq::<(Seq<char>, Seq<char>)>::empty());
    for i in 0..pairs.len()
        invariant
            ps == pairs_view(pairs@),
            start == pairs_view(old(acc)@),
            pairs_view(acc@) == insert_all(start, ps.take(i as int)),
    {
        assert(ps.take(i + 1).drop_last() =~= ps.take(i as int));
        assert(ps.take(i + 1).last() == (pairs@[i as int].0@, pairs@[i as int].1@));
        insert_pair_exec(acc, pairs[i].0.clone(), pairs[i].1.clone());
    }
    assert(ps.take(ps.len() as int) =~= ps);
}

/// Whether a pair is named `k`.
fn has_pair(acc: &Vec<(String, String)>, k: &str) -> (b: bool)
    ensures
        b == (pair_index(pairs_view(acc@), k@) < acc@.len()),
{
    let ghost cur = pairs_view(acc@);
    proof {
        lemma_pair_index(cur, k@);
    }
    let mut j: usize = 0;
    while j < acc.len()
        invariant
            cur == pairs_view(acc@),
            j <= acc@.len(),
            forall|m: int| 0 <= m < j ==> cur[m].0 != k@,
            0 <= pair_index(cur, k@) <= cur.len(),
            pair_index(cur, k@) < cur.len() ==> cur[pair_index(cur, k@)].0 == k@,
            forall|m: int| 0 <= m < pair_index(cur, k@) ==> cur[m].0 != k@,
        decreases acc@.len() - j,
    {
        if crate::text::str_eq(acc[j].0.as_str(), k) {
            assert(cur[j as int].0 == k@);
            return true;
        }
        j = j + 1;
    }
    false
}

/// Adds every pair of `pairs` whose name is not in `acc` yet, in order.
fn insert_all_absent_exec(acc: &mut Vec<(String, String)>, pairs: &Vec<(String, String)>)
    ensures
        pairs_view(final(acc)@) == insert_all_absent(pairs_view(old(acc)@), pairs_view(pairs@)),
{
    let ghost start = pairs_view(acc@);
    let ghost ps = pairs_view(pairs@);
    assert(ps.take(0) =~= Seq::<(Seq<char>, Seq<char>)>::empty());
    for i in 0..pairs.len()
        invariant
            ps == pairs_view(pairs@),
            start == pairs_view(old(acc)@),
            pairs_view(acc@) == insert_all_absent(start, ps.take(i as int)),
    {
        assert(ps.take(i + 1).drop_last() =~= ps.take(i as int));
        assert(ps.take(i + 1).last() == (pairs@[i as int].0@, pairs@[i as int].1@));
        let ghost cur = pairs_view(acc@);
        let k = &pairs[i].0;
        proof {
            lemma_pair_index(cur, k@);
        }
        let present = has_pair(acc, k.as_str());
        if present {
            assert(pair_index(cur, k@) < cur.len());
        } else {
            assert(pair_index(cur, k@) == cur.len());
            let ghost kv = (k@, pairs@[i as int].1@);
            acc.push((k.clone(), pairs[i].1.clone()));
            assert(pairs_view(acc@) =~= cur.push(kv));
        }
    }
    assert(ps.take(ps.len() as int) =~= ps);
}

/// The request a template request describes for `url`: its method (`GET`
/// by default); the configured headers and then the template's, later ones
/// replacing earlier ones of the same name; its redirect policy (following,
/// by default up to the configured number); and its body.
pub open spec fn scan_request_view(url: Seq<char>, req: Request, c: Config) -> RequestView {
    RequestView {
        url: url,
        method: match req.method {
            Some(m) => m@,
            None => "GET"@,
        },
        headers: insert_all(
            insert_all(Seq::empty(), pairs_view(c.headers@)),
            match req.headers {
                Some(h) => pairs_view(h@),
                None => Seq::empty(),
            },
        ),
        body: opt_view(req.body),
        follow_redirects: match req.redirects {
            Some(b) => b,
            None => true,
        },
        max_redirects: match req.max_redirects {
            Some(n) => n,
            None => c.max_redirects,
        },
    }
}

pub fn build_scan_request(url: &str, request: &Request, config: &Config) -> (r: ScanRequest)
    ensures
        r@ == scan_request_view(url@, *request, *config),
{
    let method = match &request.method {
        Some(m) => m.clone(),
        None => "GET".to_string(),
    };
    let mut headers: Vec<(String, String)> = Vec::new();
    assert(pairs_view(headers@) =~= Seq::<(Seq<char>, Seq<char>)>::empty());
    insert_all_exec(&mut headers, &config.headers);
    match &request.headers {
        Some(th) => insert_all_exec(&mut headers, th),
        None => {
            let empty: Vec<(String, String)> = Vec::new();
            assert(pairs_view(empty@) =~= Seq::<(Seq<char>, Seq<char>)>::empty());
            insert_all_exec(&mut headers, &empty);
        },
    }
    let follow = match request.redirects {
        Some(b) => b,
        None => true,
    };
    let max = match request.max_redirects {
        Some(n) => n,
        None => config.max_redirects,
    };
    let req = ScanRequest::new(url.to_string()).with_method(method).with_headers(headers).with_redirects(follow, max);
    match &request.body {
        Some(body) => req.with_body(body.clone()),
        None => req,
    }
}

/// A parsed raw request with the configured headers added where the raw
/// request has none of that name, and the template request's redirect policy.
pub open spec fn with_config_headers(r: RequestView, req: Request, c: Config) -> RequestView {
    RequestView {
        headers: insert_all_absent(r.headers, pairs_view(c.headers@)),
        follow_redirects: match req.redirects {
            Some(b) => b,
            None => true,
        },
        max_redirects: match req.max_redirects {
            Some(n) => n,
            None => c.max_redirects,
        },
        ..r
    }
}

pub fn apply_config_headers(req: ScanRequest, request: &Request, config: &Config) -> (r: ScanRequest)
    ensures
        r@ == with_config_headers(req@, *request, *config),
{
    let mut req = req;
    insert_all_absent_exec(&mut req.headers, &config.headers);
    let follow = match request.redirects {
        Some(b) => b,
        None => true,
    };
    let max = match request.max_redirects {
        Some(n) => n,
        None => config.max_redirects,
    };
    req.with_redirects(follow, max)
}

/// Why template variables could not be made for a URL.
#[derive(Debug, Clone, PartialEq, Eq)]
pub enum VarsError {
    /// The URL does not parse.
    InvalidUrl(String),
}

/// The values a template's `{{...}}` placeholders take for one target.
#[derive(Debug, Clone)]
pub struct TemplateVars {
    pub base_url: String,
    pub scheme: String,
    pub host: String,
    pub hostname: String,
    pub port: String,
    pub path: String,
    pub root_url: String,
}

/// The text with `{{BaseURL}}`, `{{RootURL}}`, `{{Hostname}}`, `{{Host}}`,
/// `{{Port}}`, `{{Path}}`, `{{Scheme}}`, `{{scheme}}`, `{{hostname}}` and
/// `{{host}}` replaced in that order.
pub open spec fn vars_substituted(v: TemplateVars, t: Seq<char>) -> Seq<char> {
    let t1 = crate::text::replace_all(t, "{{BaseURL}}"@, v.base_url@);
    let t2 = crate::text::replace_all(t1, "{{RootURL}}"@, v.root_url@);
    let t3 = crate::text::replace_all(t2, "{{Hostname}}"@, v.hostname@);
    let t4 = crate::text::replace_all(t3, "{{Host}}"@, v.host@);
    let t5 = crate::text::replace_all(t4, "{{Port}}"@, v.port@);
    let t6 = crate::text::replace_all(t5, "{{Path}}"@, v.path@);
    let t7 = crate::text::replace_all(t6, "{{Scheme}}"@, v.scheme@);
    let t8 = crate::text::replace_all(t7, "{{scheme}}"@, v.scheme@);
    let t9 = crate::text::replace_all(t8, "{{hostname}}"@, v.hostname@);
    crate::text::replace_all(t9, "{{host}}"@, v.host@)
}

/// Replaces one placeholder.
fn replace_one(t: Vec<char>, from: &str, to: &String) -> (r: Vec<char>)
    requires
        from@.len() > 0,
    ensures
        r@ == crate::text::replace_all(t@, from@, to@),
{
    let f = chars_of(from);
    let v = chars_of(to.as_str());
    crate::text::replace_exec(t.as_slice(), f.as_slice(), v.as_slice())
}

impl TemplateVars {
    /// The variables of a target URL: the URL itself, its scheme, host, port
    /// (the scheme's default where none is written), path, the host with
    /// `:port` where the port is not the default, and
    /// `scheme://hostname`.
    pub fn from_url(url: &str) -> (r: Result<TemplateVars, VarsError>)
        ensures
            r is Ok <==> url_parses(url@),
            r matches Ok(v) ==> {
                &&& v.base_url@ == url@
                &&& v.scheme@ == url_scheme(url@)
                &&& v.host@ == host_of(url@)
                &&& v.hostname@ == hostname_of(url@)
                &&& v.port@ == decimal(effective_port(url@) as nat)
                &&& v.path@ == url_path(url@)
                &&& v.root_url@ == url_scheme(url@) + "://"@ + hostname_of(url@)
            },
            r matches Err(VarsError::InvalidUrl(u)) ==> u@ == url@,
    {
        match parse_url(url) {
            None => Err(VarsError::InvalidUrl(url.to_string())),
            Some(parts) => {
                let scheme = parts.scheme;
                let host = match parts.host {
                    Some(h) => h,
                    None => String::new(),
                };
                let default: u16 = if crate::text::str_eq(scheme.as_str(), "https") {
                    443
                } else {
                    80
                };
                let port_num: u16 = match parts.port {
                    Some(p) => p,
                    None => default,
                };
                let port = crate::text::u64_to_string(port_num as u64);
                let hostname = if port_num == default {
                    host.clone()
                } else {
                    crate::raw_request::join3(host.as_str(), ":", port.as_str())
                };
                let root_url = crate::raw_request::join3(scheme.as_str(), "://", hostname.as_str());
                Ok(TemplateVars { base_url: url.to_string(), scheme, host, hostname, port, path: parts.path, root_url })
            },
        }
    }

    /// Replaces the placeholders of the variables in `template`.
    pub fn substitute(&self, template: &str) -> (r: String)
        ensures
            r@ == vars_substituted(*self, template@),
    {
        proof {
            reveal_strlit("{{BaseURL}}");
            reveal_strlit("{{RootURL}}");
            reveal_strlit("{{Hostname}}");
            reveal_strlit("{{Host}}");
            reveal_strlit("{{Port}}");
            reveal_strlit("{{Path}}");
            reveal_strlit("{{Scheme}}");
            reveal_strlit("{{scheme}}");
            reveal_strlit("{{hostname}}");
            reveal_strlit("{{host}}");
        }
        let t = chars_of(template);
        let t = replace_one(t, "{{BaseURL}}", &self.base_url);
        let t = replace_one(t, "{{RootURL}}", &self.root_url);
        let t = replace_one(t, "{{Hostname}}", &self.hostname);
        let t = replace_one(t, "{{Host}}", &self.host);
        let t = replace_one(t, "{{Port}}", &self.port);
        let t = replace_one(t, "{{Path}}", &self.path);
        let t = replace_one(t, "{{Scheme}}", &self.scheme);
        let t = replace_one(t, "{{scheme}}", &self.scheme);
        let t = replace_one(t, "{{hostname}}", &self.hostname);
        let t = replace_one(t, "{{host}}", &self.host);
        string_of(t.as_slice())
    }
}

/// Counts gathered over a scan.
#[derive(Debug, Clone, Copy)]
pub struct ScanStats {
    pub total_requests: u64,
    pub successful_requests: u64,
    pub failed_requests: u64,
    pub templates_loaded: u64,
    pub templates_executed: u64,
    pub matches_found: u64,
    pub cache_hits: u64,
    pub cache_misses: u64,
    pub duration: crate::time::TimeSpan,
}

impl Default for ScanStats {
    /// All counts zero.
    fn default() -> (s: Self)
        ensures
            s.total_requests == 0 && s.successful_requests == 0 && s.failed_requests == 0,
            s.templates_loaded == 0 && s.templates_executed == 0 && s.matches_found == 0,
            s.cache_hits == 0 && s.cache_misses == 0 && s.duration.nanos == 0,
    {
        ScanStats {
            total_requests: 0,
            successful_requests: 0,
            failed_requests: 0,
            templates_loaded: 0,
            templates_executed: 0,
            matches_found: 0,
            cache_hits: 0,
            cache_misses: 0,
            duration: crate::time::TimeSpan::zero(),
        }
    }
}

/// Requests as their views.
pub open spec fn requests_view(v: Seq<ScanRequest>) -> Seq<RequestView> {
    v.map_values(|r: ScanRequest| r@)
}

/// The raw requests that parse, with the configured headers applied, in order.
pub open spec fn raw_planned(raws: Seq<Seq<char>>, base: Seq<char>, vars: Seq<(Seq<char>, Seq<char>)>, req: Request, c: Config) -> Seq<RequestView>
    decreases raws.len(),
{
    if raws.len() == 0 {
        Seq::empty()
    } else {
        let rest = raw_planned(raws.drop_last(), base, vars, req, c);
        match raw_request_view(raws.last(), base, vars) {
            Some(r) => rest.push(with_config_headers(r, req, c)),
            None => rest,
        }
    }
}

/// The requests a template request describes against a base URL: one per
/// path when it has paths; else one per raw request that parses; else one
/// for the base URL itself.
pub open spec fn planned_requests(req: Request, base: Seq<char>, vars: Seq<(Seq<char>, Seq<char>)>, c: Config) -> Seq<RequestView> {
    if req.path@.len() > 0 {
        strings_view(req.path@).map_values(|p: Seq<char>| scan_request_view(resolved_path(p, base, vars), req, c))
    } else if req.raw_request@.len() > 0 {
        raw_planned(strings_view(req.raw_request@), base, vars, req, c)
    } else {
        seq![scan_request_view(base, req, c)]
    }
}

/// The requests to send for one template request.
pub fn plan_requests(request: &Request, base_url: &str, vars: &[(String, String)], config: &Config) -> (r: Vec<ScanRequest>)
    ensures
        requests_view(r@) == planned_requests(*request, base_url@, pairs_view(vars@), *config),
{
    let ghost vs = pairs_view(vars@);
    let mut out: Vec<ScanRequest> = Vec::new();
    if request.path.len() > 0 {
        let ghost ps = strings_view(request.path@);
        for i in 0..request.path.len()
            invariant
                ps == strings_view(request.path@),
                vs == pairs_view(vars@),
                out@.len() == i,
                forall|k: int| 0 <= k < i ==> #[trigger] out@[k]@ == scan_request_view(resolved_path(ps[k], base_url@, vs), *request, *config),
        {
            let url = resolve_path(request.path[i].as_str(), base_url, vars);
            out.push(build_scan_request(url.as_str(), request, config));
        }
        assert(requests_view(out@) =~= planned_requests(*request, base_url@, vs, *config));
        out
    } else if request.raw_request.len() > 0 {
        let ghost rs = strings_view(request.raw_request@);
        assert(rs.take(0) =~= Seq::<Seq<char>>::empty());
        assert(requests_view(out@) =~= Seq::<RequestView>::empty());
        for i in 0..request.raw_request.len()
            invariant
                rs == strings_view(request.raw_request@),
                vs == pairs_view(vars@),
                requests_view(out@) == raw_planned(rs.take(i as int), base_url@, vs, *request, *config),
        {
            assert(rs.take(i + 1).drop_last() =~= rs.take(i as int));
            assert(rs.take(i + 1).last() == request.raw_request@[i as int]@);
            let ghost before = requests_view(out@);
            match parse_raw_request(request.raw_request[i].as_str(), base_url, vars) {
                Ok(req) => {
                    let req = apply_config_headers(req, request, config);
                    out.push(req);
                    assert(requests_view(out@) =~= before.push(req@));
                },
                Err(_) => {},
            }
        }
        assert(rs.take(rs.len() as int) =~= rs);
        out
    } else {
        out.push(build_scan_request(base_url, request, config));
        assert(requests_view(out@) =~= seq![scan_request_view(base_url@, *request, *config)]);
        out
    }
}

/// The condition a request's matchers are combined under (`or` by default).
pub open spec fn condition_of(req: Request) -> Seq<char> {
    match req.matchers_condition {
        Some(c) => c@,
        None => "or"@,
    }
}

/// What the request's matchers give on the response, where it has matchers.
pub open spec fn match_outcome_of(req: Request, r: ResponseView) -> Option<Result<MatchView, MatchErrorView>> {
    match req.matchers {
        Some(ms) => Some(matchers_outcome(ms@, condition_of(req), r)),
        None => None,
    }
}

/// The matchers matched the response.
pub open spec fn response_matched(req: Request, r: ResponseView) -> bool {
    match match_outcome_of(req, r) {
        Some(Ok(v)) => v.matched,
        _ => false,
    }
}

/// Extractors run on a response that matched, or where there are no matchers.
pub open spec fn runs_extractors(req: Request, r: ResponseView) -> bool {
    response_matched(req, r) || req.matchers is None
}

/// What the extractors give, where they run.
pub open spec fn extraction_of(req: Request, r: ResponseView) -> Option<Result<Seq<(Seq<char>, Seq<Seq<char>>)>, ExtractErrorView>> {
    match req.extractors {
        Some(es) => if runs_extractors(req, r) {
            Some(extract_all_from(es@, Seq::empty(), r))
        } else {
            None
        },
        None => None,
    }
}

/// The response can be evaluated: every extractor that runs can be
/// evaluated.
pub open spec fn evaluation_defined(req: Request, r: ResponseView) -> bool {
    &&& (runs_extractors(req, r) ==> match req.extractors {
        Some(es) => forall|i: int| 0 <= i < es@.len() ==> #[trigger] extraction_defined(es@[i], r),
        None => true,
    })
}

/// The result for one response, with the matcher or extractor error that
/// was set aside, if any.
#[derive(Debug)]
pub struct Evaluation {
    pub result: ScanResult,
    pub matcher_error: Option<MatchError>,
    pub extractor_error: Option<ExtractError>,
}

/// Evaluates a response to one request of a template: the request's matchers
/// decide whether it matched (an error counts as no match and is handed
/// back); its extractors run when it matched or has no matchers, and what
/// they find is kept unless they fail. `None` where a JSON path of an
/// extractor that runs cannot be evaluated on this response.
pub fn evaluate_response(
    matcher_engine: &mut MatcherEngine,
    extractor_engine: &mut ExtractorEngine,
    request: &Request,
    scan_req: ScanRequest,
    response: HttpResponse,
    template_id: String,
) -> (r: Option<Evaluation>)
    ensures
        r is Some <==> evaluation_defined(*request, response@),
        r matches Some(ev) ==> {
            &&& ev.result.request == scan_req
            &&& ev.result.response == response
            &&& ev.result.template_id == template_id
            &&& ev.result.matched == response_matched(*request, response@)
            &&& opt_view(ev.result.matcher_name) == (match match_outcome_of(*request, response@) {
                Some(Ok(v)) => if v.matched {
                    v.matcher_name
                } else {
                    None
                },
                _ => None,
            })
            &&& (match match_outcome_of(*request, response@) {
                Some(Err(e)) => ev.matcher_error matches Some(me) && me@ == e,
                _ => ev.matcher_error is None,
            })
            &&& extracted_view(ev.result.extracted_data@) == (match extraction_of(*request, response@) {
                Some(Ok(m)) => m,
                _ => Seq::empty(),
            })
            &&& (match extraction_of(*request, response@) {
                Some(Err(e)) => ev.extractor_error matches Some(ee) && ee@ == e,
                _ => ev.extractor_error is None,
            })
        },
{
    let cond = match &request.matchers_condition {
        Some(c) => c.clone(),
        None => "or".to_string(),
    };
    let mut matched = false;
    let mut matcher_name: Option<String> = None;
    let mut matcher_error: Option<MatchError> = None;
    match &request.matchers {
        Some(ms) => match matcher_engine.evaluate_matchers(ms.as_slice(), cond.as_str(), &response) {
            Ok(mr) => {
                if mr.matched {
                    matched = true;
                    matcher_name = mr.matcher_name;
                }
            },
            Err(e) => {
                matcher_error = Some(e);
            },
        },
        None => {},
    }
    assert(matched == response_matched(*request, response@));
    let run = matched || request.matchers.is_none();
    let mut extracted: Vec<(String, Vec<String>)> = Vec::new();
    let mut extractor_error: Option<ExtractError> = None;
    if run {
        match &request.extractors {
            Some(es) => match extractor_engine.try_extract_all(es.as_slice(), &response) {
                None => {
                    return None;
                },
                Some(Ok(d)) => {
                    extracted = d;
                },
                Some(Err(e)) => {
                    extractor_error = Some(e);
                },
            },
            None => {},
        }
    }
    assert(extracted_view(extracted@) == (match extraction_of(*request, response@) {
        Some(Ok(m)) => m,
        _ => Seq::<(Seq<char>, Seq<Seq<char>>)>::empty(),
    }));
    let mut result = ScanResult::new(scan_req, response, template_id);
    if matched {
        result = result.with_match(matcher_name);
    }
    result = result.with_extracted_data(extracted);
    Some(Evaluation { result, matcher_error, extractor_error })
}

/// Appends the characters of `s`.
fn push_text(out: &mut Vec<char>, s: &str)
    ensures
        final(out)@ == old(out)@ + s@,
{
    let cs = chars_of(s);
    out.extend_from_slice(cs.as_slice());
}

/// The results a list of references points to.
pub open spec fn derefs(v: Seq<&ScanResult>) -> Seq<ScanResult> {
    v.map_values(|r: &ScanResult| *r)
}

/// The results that matched, in order.
pub open spec fn matched_only(rs: Seq<ScanResult>) -> Seq<ScanResult>
    decreases rs.len(),
{
    if rs.len() == 0 {
        Seq::empty()
    } else if rs.last().matched {
        matched_only(rs.drop_last()).push(rs.last())
    } else {
        matched_only(rs.drop_last())
    }
}

/// The results that matched.
pub fn matched_results(results: &[ScanResult]) -> (r: Vec<&ScanResult>)
    ensures
        derefs(r@) == matched_only(results@),
{
    let mut out: Vec<&ScanResult> = Vec::new();
    assert(results@.take(0) =~= Seq::<ScanResult>::empty());
    assert(derefs(out@) =~= Seq::<ScanResult>::empty());
    for i in 0..results.len()
        invariant
            derefs(out@) == matched_only(results@.take(i as int)),
    {
        assert(results@.take(i + 1).drop_last() =~= results@.take(i as int));
        assert(results@.take(i + 1).last() == results@[i as int]);
        let ghost before = derefs(out@);
        if results[i].matched {
            out.push(&results[i]);
            assert(derefs(out@) =~= before.push(results@[i as int]));
        }
    }
    assert(results@.take(results@.len() as int) =~= results@);
    out
}

/// Index of the first template with this id, or the number of templates.
pub open spec fn template_index(ts: Seq<Template>, id: Seq<char>) -> int
    decreases ts.len(),
{
    if ts.len() == 0 {
        0
    } else if ts[0].id@ == id {
        0
    } else {
        1 + template_index(ts.drop_first(), id)
    }
}

pub proof fn lemma_template_index(ts: Seq<Template>, id: Seq<char>)
    ensures
        0 <= template_index(ts, id) <= ts.len(),
        template_index(ts, id) < ts.len() ==> ts[template_index(ts, id)].id@ == id,
        forall|j: int| 0 <= j < template_index(ts, id) ==> ts[j].id@ != id,
    decreases ts.len(),
{
    if ts.len() > 0 && ts[0].id@ != id {
        lemma_template_index(ts.drop_first(), id);
        assert forall|j: int| 0 <= j < template_index(ts, id) implies ts[j].id@ != id by {
            if j > 0 {
                assert(ts[j] == ts.drop_first()[j - 1]);
            }
        }
    }
}

/// Index of the first template with this id, or the number of templates.
pub fn find_template(ts: &[Template], id: &str) -> (r: usize)
    ensures
        r == template_index(ts@, id@),
{
    proof {
        lemma_template_index(ts@, id@);
    }
    let mut i: usize = 0;
    while i < ts.len()
        invariant
            i <= ts@.len(),
            forall|j: int| 0 <= j < i ==> ts@[j].id@ != id@,
            0 <= template_index(ts@, id@) <= ts@.len(),
            template_index(ts@, id@) < ts@.len() ==> ts@[template_index(ts@, id@)].id@ == id@,
            forall|j: int| 0 <= j < template_index(ts@, id@) ==> ts@[j].id@ != id@,
        decreases ts@.len() - i,
    {
        if crate::text::str_eq(ts[i].id.as_str(), id) {
            return i;
        }
        i = i + 1;
    }
    i
}

/// Appends the items joined by `sep`.
fn push_joined(out: &mut Vec<char>, vs: &Vec<String>, sep: &str)
    ensures
        final(out)@ == old(out)@ + joined(strings_view(vs@), sep@),
{
    let ghost start = out@;
    let ghost v = strings_view(vs@);
    assert(v.take(0) =~= Seq::<Seq<char>>::empty());
    assert(out@ =~= start + joined(v.take(0), sep@));
    for i in 0..vs.len()
        invariant
            v == strings_view(vs@),
            start == old(out)@,
            out@ == start + joined(v.take(i as int), sep@),
    {
        assert(v.take(i + 1).drop_last() =~= v.take(i as int));
        assert(v.take(i + 1).last() == vs@[i as int]@);
        if i > 0 {
            push_text(out, sep);
        } else {
            assert(v.take(1) =~= seq![v[0]]);
        }
        push_text(out, vs[i].as_str());
        assert(out@ =~= start + joined(v.take(i + 1), sep@));
    }
    assert(v.take(v.len() as int) =~= v);
}

/// One `  key: v1, v2` line per extracted entry.
pub open spec fn extracted_lines(d: Seq<(Seq<char>, Seq<Seq<char>>)>) -> Seq<char>
    decreases d.len(),
{
    if d.len() == 0 {
        Seq::empty()
    } else {
        extracted_lines(d.drop_last()) + "  "@ + d.last().0 + ": "@ + joined(d.last().1, ", "@) + "\n"@
    }
}

/// The text block of one result: `[SEVERITY] [id] name [url]`, the
/// extracted entries, and an empty line; severity and name come from the
/// first template with the result's id, and are empty where there is none.
pub open spec fn result_block(r: ScanResult, ts: Seq<Template>) -> Seq<char> {
    let i = template_index(ts, r.template_id@);
    let sev = if i < ts.len() {
        uppercase(ts[i].info.severity@)
    } else {
        Seq::empty()
    };
    let name = if i < ts.len() {
        ts[i].info.name@
    } else {
        Seq::empty()
    };
    "["@ + sev + "] ["@ + r.template_id@ + "] "@ + name + " ["@ + r.request.url@ + "]\n"@
        + extracted_lines(extracted_view(r.extracted_data@)) + "\n"@
}

/// The text report: the blocks of the results in order.
pub open spec fn text_report(rs: Seq<ScanResult>, ts: Seq<Template>) -> Seq<char>
    decreases rs.len(),
{
    if rs.len() == 0 {
        Seq::empty()
    } else {
        text_report(rs.drop_last(), ts) + result_block(rs.last(), ts)
    }
}

/// Appends the block of one result.
fn push_block(out: &mut Vec<char>, r: &ScanResult, templates: &[Template])
    ensures
        final(out)@ == old(out)@ + result_block(*r, templates@),
{
    let ghost start = out@;
    let i = find_template(templates, r.template_id.as_str());
    proof {
        lemma_template_index(templates@, r.template_id@);
    }
    push_text(out, "[");
    if i < templates.len() {
        let sev = to_uppercase(templates[i].info.severity.as_str());
        push_text(out, sev.as_str());
    }
    push_text(out, "] [");
    push_text(out, r.template_id.as_str());
    push_text(out, "] ");
    if i < templates.len() {
        push_text(out, templates[i].info.name.as_str());
    }
    push_text(out, " [");
    push_text(out, r.request.url.as_str());
    push_text(out, "]\n");
    let ghost head = out@;
    let ghost d = extracted_view(r.extracted_data@);
    assert(d.take(0) =~= Seq::<(Seq<char>, Seq<Seq<char>>)>::empty());
    for k in 0..r.extracted_data.len()
        invariant
            d == extracted_view(r.extracted_data@),
            out@ == head + extracted_lines(d.take(k as int)),
    {
        assert(d.take(k + 1).drop_last() =~= d.take(k as int));
        assert(d.take(k + 1).last() == (r.extracted_data@[k as int].0@, strings_view(r.extracted_data@[k as int].1@)));
        push_text(out, "  ");
        push_text(out, r.extracted_data[k].0.as_str());
        push_text(out, ": ");
        push_joined(out, &r.extracted_data[k].1, ", ");
        push_text(out, "\n");
        assert(out@ =~= head + extracted_lines(d.take(k + 1)));
    }
    assert(d.take(d.len() as int) =~= d);
    push_text(out, "\n");
    assert(out@ =~= start + result_block(*r, templates@));
}

/// The text report of the given results.
pub fn format_text(results: &[&ScanResult], templates: &[Template]) -> (s: String)
    ensures
        s@ == text_report(derefs(results@), templates@),
{
    let mut out: Vec<char> = Vec::new();
    assert(derefs(results@).take(0) =~= Seq::<ScanResult>::empty());
    for i in 0..results.len()
        invariant
            out@ == text_report(derefs(results@).take(i as int), templates@),
    {
        assert(derefs(results@).take(i + 1).drop_last() =~= derefs(results@).take(i as int));
        assert(derefs(results@).take(i + 1).last() == *results@[i as int]);
        push_block(&mut out, results[i], templates);
    }
    assert(derefs(results@).take(results@.len() as int) =~= derefs(results@));
    string_of(out.as_slice())
}

/// Every result kept for the report matched, and none that matched is left
/// out.
pub proof fn law_matched_only(rs: Seq<ScanResult>)
    ensures
        forall|i: int| 0 <= i < matched_only(rs).len() ==> #[trigger] matched_only(rs)[i].matched,
        matched_only(rs).len() <= rs.len(),
        (forall|i: int| 0 <= i < rs.len() ==> #[trigger] rs[i].matched) ==> matched_only(rs) == rs,
    decreases rs.len(),
{
    if rs.len() > 0 {
        law_matched_only(rs.drop_last());
        if forall|i: int| 0 <= i < rs.len() ==> #[trigger] rs[i].matched {
            assert forall|i: int| 0 <= i < rs.drop_last().len() implies #[trigger] rs.drop_last()[i].matched by {
                assert(rs.drop_last()[i] == rs[i]);
            }
            assert(rs.last().matched);
            assert(rs.drop_last().push(rs.last()) =~= rs);
        }
    }
}

/// A base URL is its own base URL, once it names a scheme and has a host
/// part that does not end in `/`.
pub proof fn law_base_url_stable(target: Seq<char>)
    requires
        is_absolute(base_url_of(target)),
        base_url_of(target).len() > 0 && base_url_of(target).last() != '/',
    ensures
        base_url_of(base_url_of(target)) == base_url_of(target),
{
    let b = base_url_of(target);
    assert(b.len() > 0 && b.last() != '/');
    assert(trim_end_char(b, '/') == b);
}

} // verus!
