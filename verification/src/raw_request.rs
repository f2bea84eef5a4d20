//! Raw HTTP requests written out in templates: placeholder substitution,
//! and parsing into a `ScanRequest`.

use vstd::prelude::*;
use crate::scanner::response::pairs_view;
use crate::scanner::{RequestView, ScanRequest};
use crate::urls::{parse_url, url_host, url_parses, url_path, url_port, url_scheme};
use crate::text::{
    char_index, char_index_exec, chars_of, contains, decimal, find, first_index, lemma_char_index,
    lemma_first_index, lines, lines_exec, replace_all, replace_exec, starts_with, ends_with,
    starts_with_exec, string_of, trim, trim_end, trim_end_char, trim_end_char_exec, trim_end_exec,
    trim_exec, trim_start_char, trim_start_char_exec, u64_to_string, views,
};

verus! {

/// Why a raw request could not be parsed.
#[derive(Debug, Clone, Copy, PartialEq, Eq)]
pub enum RawRequestError {
    /// Nothing but whitespace before the body.
    Empty,
}

/// `{{name}}`.
pub open spec fn placeholder(name: Seq<char>) -> Seq<char> {
    "{{"@ + name + "}}"@
}

/// The text with each variable's placeholder replaced by its value, the
/// variables taken in order.
pub open spec fn substituted(t: Seq<char>, vars: Seq<(Seq<char>, Seq<char>)>) -> Seq<char>
    decreases vars.len(),
{
    if vars.len() == 0 {
        t
    } else {
        replace_all(substituted(t, vars.drop_last()), placeholder(vars.last().0), vars.last().1)
    }
}

/// The substituted text with `\r\n` line ends turned into `\n`.
pub open spec fn normalized(raw: Seq<char>, vars: Seq<(Seq<char>, Seq<char>)>) -> Seq<char> {
    replace_all(substituted(raw, vars), "\r\n"@, "\n"@)
}

/// What precedes the first blank line, without trailing whitespace; the
/// whole text trimmed where there is no blank line.
pub open spec fn header_section(t: Seq<char>) -> Seq<char> {
    if contains(t, "\n\n"@) {
        trim_end(t.take(first_index(t, "\n\n"@)))
    } else {
        trim(t)
    }
}

/// What follows the first blank line, without leading newlines; none where
/// that is empty or there is no blank line.
pub open spec fn body_section(t: Seq<char>) -> Option<Seq<char>> {
    if contains(t, "\n\n"@) {
        let b = trim_start_char(t.skip(first_index(t, "\n\n"@)), '\n');
        if b.len() == 0 {
            None
        } else {
            Some(b)
        }
    } else {
        None
    }
}

/// The method: the request line up to its first space, trimmed.
pub open spec fn request_method(rl: Seq<char>) -> Seq<char> {
    trim(rl.take(char_index(rl, ' ')))
}

/// The target: the request line's second space-separated piece, trimmed;
/// `/` where there is no space.
pub open spec fn request_target(rl: Seq<char>) -> Seq<char> {
    let k = char_index(rl, ' ');
    if k < rl.len() {
        let rest = rl.skip(k + 1);
        trim(rest.take(char_index(rest, ' ')))
    } else {
        "/"@
    }
}

/// An absolute target as it is; otherwise the base URL without trailing
/// slashes, then the target with a leading `/`.
pub open spec fn absolute_url(target: Seq<char>, base: Seq<char>) -> Seq<char> {
    if starts_with(target, "http://"@) || starts_with(target, "https://"@) {
        target
    } else {
        trim_end_char(base, '/') + if starts_with(target, "/"@) {
            target
        } else {
            "/"@ + target
        }
    }
}

/// Index of the pair named `k`, or the number of pairs.
pub open spec fn pair_index(m: Seq<(Seq<char>, Seq<char>)>, k: Seq<char>) -> int
    decreases m.len(),
{
    if m.len() == 0 {
        0
    } else if m[0].0 == k {
        0
    } else {
        1 + pair_index(m.drop_first(), k)
    }
}

pub proof fn lemma_pair_index(m: Seq<(Seq<char>, Seq<char>)>, k: Seq<char>)
    ensures
        0 <= pair_index(m, k) <= m.len(),
        pair_index(m, k) < m.len() ==> m[pair_index(m, k)].0 == k,
        forall|j: int| 0 <= j < pair_index(m, k) ==> m[j].0 != k,
    decreases m.len(),
{
    if m.len() > 0 && m[0].0 != k {
        lemma_pair_index(m.drop_first(), k);
        assert forall|j: int| 0 <= j < pair_index(m, k) implies m[j].0 != k by {
            if j > 0 {
                assert(m[j] == m.drop_first()[j - 1]);
            }
        }
    }
}

/// `m` with `k` set to `v`: the pair replaced in place, or appended.
pub open spec fn insert_pair(m: Seq<(Seq<char>, Seq<char>)>, k: Seq<char>, v: Seq<char>) -> Seq<(Seq<char>, Seq<char>)> {
    let i = pair_index(m, k);
    if i < m.len() {
        m.update(i, (k, v))
    } else {
        m.push((k, v))
    }
}

/// The headers of the lines, added to `acc` up to the first empty line:
/// each line with a `:` sets the trimmed name before it to the trimmed value
/// after it; other lines are skipped.
pub open spec fn header_pairs(ls: Seq<Seq<char>>, acc: Seq<(Seq<char>, Seq<char>)>) -> Seq<(Seq<char>, Seq<char>)>
    decreases ls.len(),
{
    if ls.len() == 0 {
        acc
    } else {
        let l = trim(ls[0]);
        if l.len() == 0 {
            acc
        } else {
            let c = char_index(l, ':');
            header_pairs(
                ls.drop_first(),
                if c < l.len() {
                    insert_pair(acc, trim(l.take(c)), trim(l.skip(c + 1)))
                } else {
                    acc
                },
            )
        }
    }
}

/// The request a raw request describes, or none where its header section is
/// empty.
pub open spec fn raw_request_view(raw: Seq<char>, base: Seq<char>, vars: Seq<(Seq<char>, Seq<char>)>) -> Option<RequestView> {
    let t = normalized(raw, vars);
    let ls = lines(header_section(t));
    if ls.len() == 0 {
        None
    } else {
        let rl = trim(ls[0]);
        Some(
            RequestView {
                url: absolute_url(request_target(rl), base),
                method: request_method(rl),
                headers: header_pairs(ls.skip(1), Seq::empty()),
                body: body_section(t),
                follow_redirects: true,
                max_redirects: 3,
            },
        )
    }
}

/// Replaces each variable's `{{name}}` by its value, the variables taken in
/// order.
pub(crate) fn substitute_vars(text: &str, vars: &[(String, String)]) -> (r: Vec<char>)
    ensures
        r@ == substituted(text@, pairs_view(vars@)),
{
    let ghost vs = pairs_view(vars@);
    let mut out = chars_of(text);
    assert(vs.take(0) =~= Seq::<(Seq<char>, Seq<char>)>::empty());
    for i in 0..vars.len()
        invariant
            vs == pairs_view(vars@),
            out@ == substituted(text@, vs.take(i as int)),
    {
        assert(vs.take(i + 1).drop_last() =~= vs.take(i as int));
        assert(vs.take(i + 1).last() == (vars@[i as int].0@, vars@[i as int].1@));
        let mut ph = chars_of("{{");
        let name = chars_of(vars[i].0.as_str());
        ph.extend_from_slice(name.as_slice());
        let close = chars_of("}}");
        ph.extend_from_slice(close.as_slice());
        assert(ph@ == placeholder(vars@[i as int].0@));
        proof {
            reveal_strlit("{{");
        }
        let value = chars_of(vars[i].1.as_str());
        out = replace_exec(out.as_slice(), ph.as_slice(), value.as_slice());
    }
    assert(vs.take(vars@.len() as int) =~= vs);
    out
}

/// Index of the first blank line (`"\n\n"`).
fn find_header_body_split(raw: &[char]) -> (r: Option<usize>)
    ensures
        match r {
            Some(p) => contains(raw@, "\n\n"@) && p == first_index(raw@, "\n\n"@) && p + 2 <= raw@.len(),
            None => !contains(raw@, "\n\n"@),
        },
{
    let sep = chars_of("\n\n");
    let r = find(raw, sep.as_slice());
    match r {
        Some(p) => {
            proof {
                lemma_first_index(raw@, sep@, p as int);
            }
            assert(crate::text::occurs_at(raw@, sep@, p as int));
            proof {
                reveal_strlit("\n\n");
            }
            Some(p)
        },
        None => None,
    }
}

/// Sets `k` to `v`.
pub(crate) fn insert_pair_exec(m: &mut Vec<(String, String)>, k: String, v: String)
    ensures
        pairs_view(final(m)@) == insert_pair(pairs_view(old(m)@), k@, v@),
{
    let ghost mv = pairs_view(m@);
    proof {
        lemma_pair_index(mv, k@);
    }
    let mut i: usize = 0;
    while i < m.len()
        invariant
            mv == pairs_view(m@),
            mv == pairs_view(old(m)@),
            i <= m@.len(),
            forall|j: int| 0 <= j < i ==> mv[j].0 != k@,
            0 <= pair_index(mv, k@) <= mv.len(),
            pair_index(mv, k@) < mv.len() ==> mv[pair_index(mv, k@)].0 == k@,
            forall|j: int| 0 <= j < pair_index(mv, k@) ==> mv[j].0 != k@,
        decreases m@.len() - i,
    {
        if crate::text::str_eq(m[i].0.as_str(), k.as_str()) {
            assert(mv[i as int].0 == k@);
            assert(pair_index(mv, k@) == i);
            let ghost kv = (k@, v@);
            m.set(i, (k, v));
            assert(pairs_view(m@) =~= mv.update(i as int, kv));
            return;
        }
        i = i + 1;
    }
    assert(pair_index(mv, k@) == mv.len());
    let ghost kv = (k@, v@);
    m.push((k, v));
    assert(pairs_view(m@) =~= mv.push(kv));
}

/// The headers of the lines from index `from` on, up to the first empty line.
fn parse_header_lines(ls: &Vec<Vec<char>>, from: usize) -> (r: Vec<(String, String)>)
    requires
        from <= ls@.len(),
    ensures
        pairs_view(r@) == header_pairs(views(ls@).skip(from as int), Seq::empty()),
{
    let ghost lv = views(ls@);
    let mut headers: Vec<(String, String)> = Vec::new();
    let mut i: usize = from;
    assert(pairs_view(headers@) =~= Seq::<(Seq<char>, Seq<char>)>::empty());
    while i < ls.len()
        invariant
            lv == views(ls@),
            from <= i <= lv.len(),
            header_pairs(lv.skip(from as int), Seq::empty()) == header_pairs(lv.skip(i as int), pairs_view(headers@)),
        decreases lv.len() - i,
    {
        let ghost rest = lv.skip(i as int);
        assert(rest[0] == ls@[i as int]@);
        assert(rest.drop_first() =~= lv.skip(i + 1));
        let l = trim_exec(ls[i].as_slice());
        if l.len() == 0 {
            return headers;
        }
        let c = char_index_exec(l, ':');
        proof {
            lemma_char_index(l@, ':');
        }
        if c < l.len() {
            let name_part = &l[0..c];
            let value_part = &l[c + 1..l.len()];
            assert(name_part@ =~= l@.take(c as int));
            assert(value_part@ =~= l@.skip(c + 1));
            let name = string_of(trim_exec(name_part));
            let value = string_of(trim_exec(value_part));
            insert_pair_exec(&mut headers, name, value);
        }
        i = i + 1;
    }
    assert(lv.skip(i as int) =~= Seq::<Seq<char>>::empty());
    headers
}

/// The method and target of a request line.
fn request_line_parts(rl: &[char]) -> (r: (String, String))
    ensures
        r.0@ == request_method(rl@),
        r.1@ == request_target(rl@),
{
    let k = char_index_exec(rl, ' ');
    proof {
        lemma_char_index(rl@, ' ');
    }
    let first = &rl[0..k];
    assert(first@ =~= rl@.take(k as int));
    let method = string_of(trim_exec(first));
    if k < rl.len() {
        let rest = &rl[k + 1..rl.len()];
        assert(rest@ =~= rl@.skip(k + 1));
        let k2 = char_index_exec(rest, ' ');
        proof {
            lemma_char_index(rest@, ' ');
        }
        let second = &rest[0..k2];
        assert(second@ =~= rest@.take(k2 as int));
        (method, string_of(trim_exec(second)))
    } else {
        (method, "/".to_string())
    }
}

/// The absolute URL of a target.
fn absolute_url_exec(target: String, base_url: &str) -> (r: String)
    ensures
        r@ == absolute_url(target@, base_url@),
{
    let tc = chars_of(target.as_str());
    let http = chars_of("http://");
    let https = chars_of("https://");
    if starts_with_exec(tc.as_slice(), http.as_slice()) || starts_with_exec(tc.as_slice(), https.as_slice()) {
        return target;
    }
    let bc = chars_of(base_url);
    let base = trim_end_char_exec(bc.as_slice(), '/');
    let mut out: Vec<char> = vstd::slice::slice_to_vec(base);
    let slash = chars_of("/");
    if !starts_with_exec(tc.as_slice(), slash.as_slice()) {
        out.push('/');
        proof {
            reveal_strlit("/");
        }
    }
    let ghost mid = out@;
    out.extend_from_slice(tc.as_slice());
    assert(out@ =~= mid + target@);
    string_of(out.as_slice())
}

/// Substitutes the variables into a raw request, then parses it: the request
/// line gives the method and the target (made absolute against `base_url`),
/// the following lines up to an empty one give the headers, and what follows
/// the first blank line gives the body.
pub fn parse_raw_request(raw: &str, base_url: &str, vars: &[(String, String)]) -> (r: Result<ScanRequest, RawRequestError>)
    ensures
        match r {
            Ok(req) => raw_request_view(raw@, base_url@, pairs_view(vars@)) == Some(req@),
            Err(_) => raw_request_view(raw@, base_url@, pairs_view(vars@)) is None,
        },
{
    let sub = substitute_vars(raw, vars);
    let crlf = chars_of("\r\n");
    let lf = chars_of("\n");
    proof {
        reveal_strlit("\r\n");
    }
    let t = replace_exec(sub.as_slice(), crlf.as_slice(), lf.as_slice());
    let ghost tv = normalized(raw@, pairs_view(vars@));
    assert(t@ == tv);
    let (header, body): (&[char], Option<String>) = match find_header_body_split(t.as_slice()) {
        Some(p) => {
            let h = &t.as_slice()[0..p];
            let b = &t.as_slice()[p..t.len()];
            assert(h@ =~= tv.take(p as int));
            assert(b@ =~= tv.skip(p as int));
            let b = trim_start_char_exec(b, '\n');
            (trim_end_exec(h), if b.len() == 0 {
                None
            } else {
                Some(string_of(b))
            })
        },
        None => (trim_exec(t.as_slice()), None),
    };
    assert(header@ == header_section(tv));
    assert(crate::scanner::opt_view(body) == body_section(tv));
    let ls = lines_exec(header);
    if ls.len() == 0 {
        return Err(RawRequestError::Empty);
    }
    let rl = trim_exec(ls[0].as_slice());
    let (method, target) = request_line_parts(rl);
    let url = absolute_url_exec(target, base_url);
    let headers = parse_header_lines(&ls, 1);
    let req = ScanRequest::new(url).with_method(method).with_headers(headers);
    let req = match body {
        Some(b) => req.with_body(b),
        None => req,
    };
    Ok(req)
}

/// The port a scheme implies: 443 for `https`, 80 otherwise.
pub open spec fn default_port(scheme: Seq<char>) -> u16 {
    if scheme == "https"@ {
        443
    } else {
        80
    }
}

/// The URL's port, or its scheme's default.
pub open spec fn effective_port(u: Seq<char>) -> u16 {
    match url_port(u) {
        Some(p) => p,
        None => default_port(url_scheme(u)),
    }
}

/// The URL's host, empty where it has none.
pub open spec fn host_of(u: Seq<char>) -> Seq<char> {
    match url_host(u) {
        Some(h) => h,
        None => Seq::empty(),
    }
}

/// The host, followed by `:port` where the port is not the default.
pub open spec fn hostname_of(u: Seq<char>) -> Seq<char> {
    if effective_port(u) == default_port(url_scheme(u)) {
        host_of(u)
    } else {
        host_of(u) + ":"@ + decimal(effective_port(u) as nat)
    }
}

/// The variables a base URL defines, in order; none where it does not parse.
pub open spec fn url_vars(u: Seq<char>) -> Seq<(Seq<char>, Seq<char>)> {
    if !url_parses(u) {
        Seq::empty()
    } else {
        let scheme = url_scheme(u);
        let hostname = hostname_of(u);
        let host = host_of(u);
        seq![
            ("BaseURL"@, u),
            ("RootURL"@, scheme + "://"@ + hostname),
            ("Hostname"@, hostname),
            ("Host"@, host),
            ("Port"@, decimal(effective_port(u) as nat)),
            ("Path"@, url_path(u)),
            ("Scheme"@, scheme),
            ("hostname"@, hostname),
            ("host"@, host),
            ("scheme"@, scheme),
        ]
    }
}

/// Concatenates character sequences into a `String`.
pub(crate) fn join3(a: &str, b: &str, c: &str) -> (r: String)
    ensures
        r@ == a@ + b@ + c@,
{
    let mut v = chars_of(a);
    let bc = chars_of(b);
    let cc = chars_of(c);
    v.extend_from_slice(bc.as_slice());
    v.extend_from_slice(cc.as_slice());
    string_of(v.as_slice())
}

/// The variables of a base URL for raw-request substitution: `BaseURL`,
/// `RootURL`, `Hostname`, `Host`, `Port`, `Path`, `Scheme`, and the
/// lowercase `hostname`, `host` and `scheme`.
pub fn build_vars(base_url: &str) -> (r: Vec<(String, String)>)
    ensures
        pairs_view(r@) == url_vars(base_url@),
{
    let mut vars: Vec<(String, String)> = Vec::new();
    match parse_url(base_url) {
        None => {
            assert(pairs_view(vars@) =~= url_vars(base_url@));
            vars
        },
        Some(parts) => {
            let scheme = parts.scheme;
            let host = match parts.host {
                Some(h) => h,
                None => String::new(),
            };
            let default: u16 = if crate::text::str_eq(scheme.as_str(), "https") {
                443
            } else {
                80
            };
            let port_num: u16 = match parts.port {
                Some(p) => p,
                None => default,
            };
            let port = u64_to_string(port_num as u64);
            let hostname = if port_num == default {
                host.clone()
            } else {
                join3(host.as_str(), ":", port.as_str())
            };
            assert(hostname@ == hostname_of(base_url@));
            let root_url = join3(scheme.as_str(), "://", hostname.as_str());
            vars.push(("BaseURL".to_string(), base_url.to_string()));
            vars.push(("RootURL".to_string(), root_url));
            vars.push(("Hostname".to_string(), hostname.clone()));
            vars.push(("Host".to_string(), host.clone()));
            vars.push(("Port".to_string(), port));
            vars.push(("Path".to_string(), parts.path));
            vars.push(("Scheme".to_string(), scheme.clone()));
            vars.push(("hostname".to_string(), hostname));
            vars.push(("host".to_string(), host));
            vars.push(("scheme".to_string(), scheme));
            assert(pairs_view(vars@) =~= url_vars(base_url@));
            vars
        },
    }
}

/// A target that names its own scheme (`http://` or `https://`) is the URL
/// as it stands, whatever the base URL; any other target ends the URL.
pub proof fn law_absolute_target_is_the_url(target: Seq<char>, base: Seq<char>)
    ensures
        (starts_with(target, "http://"@) || starts_with(target, "https://"@)) ==> absolute_url(
            target,
            base,
        ) == target,
        ends_with(absolute_url(target, base), target),
{
    let u = absolute_url(target, base);
    assert(u.skip(u.len() - target.len()) =~= target);
}

/// The URL of a parsed raw request whose target names its scheme is that
/// target.
pub proof fn law_raw_request_keeps_absolute_target(raw: Seq<char>, base: Seq<char>, vars: Seq<(Seq<char>, Seq<char>)>)
    ensures
        raw_request_view(raw, base, vars) matches Some(v) ==> ({
            let ls = lines(header_section(normalized(raw, vars)));
            let target = request_target(trim(ls[0]));
            (starts_with(target, "http://"@) || starts_with(target, "https://"@)) ==> v.url == target
        }),
{
}

} // verus!
