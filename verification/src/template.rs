//! Templates: what to send and how to judge the responses.

pub mod cache;
pub mod parser;

use vstd::prelude::*;
use crate::text::{
    chars_of, lowercase, split_char, split_char_exec, str_eq, string_of, to_lowercase, trim,
    trim_exec,
};

verus! {

/// A response matcher of a template request.
#[derive(Debug, Clone)]
pub struct Matcher {
    pub matcher_type: String,
    pub condition: Option<String>,
    pub part: Option<String>,
    pub status: Option<Vec<u16>>,
    pub size: Option<Vec<i64>>,
    pub words: Option<Vec<String>>,
    pub regex: Option<Vec<String>>,
    pub binary: Option<Vec<String>>,
    pub dsl: Option<Vec<String>>,
    pub encoding: Option<String>,
    pub case_insensitive: Option<bool>,
    pub negative: Option<bool>,
    pub name: Option<String>,
    pub internal: Option<bool>,
}

impl Default for Matcher {
    /// A `status` matcher with nothing else set.
    fn default() -> (m: Self)
        ensures
            m.matcher_type@ == "status"@,
            m.condition is None && m.part is None && m.status is None && m.size is None,
            m.words is None && m.regex is None && m.binary is None && m.dsl is None,
            m.encoding is None && m.case_insensitive is None && m.negative is None,
            m.name is None && m.internal is None,
    {
        Matcher {
            matcher_type: "status".to_string(),
            condition: None,
            part: None,
            status: None,
            size: None,
            words: None,
            regex: None,
            binary: None,
            dsl: None,
            encoding: None,
            case_insensitive: None,
            negative: None,
            name: None,
            internal: None,
        }
    }
}

/// A data extractor of a template request.
#[derive(Debug, Clone)]
pub struct Extractor {
    pub extractor_type: String,
    pub name: Option<String>,
    pub part: Option<String>,
    pub group: Option<u32>,
    pub regex: Option<Vec<String>>,
    pub kval: Option<Vec<String>>,
    pub xpath: Option<Vec<String>>,
    pub json: Option<Vec<String>>,
    pub dsl: Option<Vec<String>>,
    pub attribute: Option<String>,
    pub internal: Option<bool>,
    pub case_insensitive: Option<bool>,
}

impl Default for Extractor {
    /// A `regex` extractor over the body with nothing else set.
    fn default() -> (e: Self)
        ensures
            e.extractor_type@ == "regex"@,
            e.name is None && e.group is None,
            e.part matches Some(p) && p@ == "body"@,
            e.regex is None && e.kval is None && e.xpath is None && e.json is None && e.dsl is None,
            e.attribute is None && e.internal is None && e.case_insensitive is None,
    {
        Extractor {
            extractor_type: "regex".to_string(),
            name: None,
            part: Some("body".to_string()),
            group: None,
            regex: None,
            kval: None,
            xpath: None,
            json: None,
            dsl: None,
            attribute: None,
            internal: None,
            case_insensitive: None,
        }
    }
}

/// An HTTP request of a template.
#[derive(Debug, Clone)]
pub struct Request {
    pub method: Option<String>,
    pub path: Vec<String>,
    pub headers: Option<Vec<(String, String)>>,
    pub body: Option<String>,
    pub raw_request: Vec<String>,
    pub matchers: Option<Vec<Matcher>>,
    pub extractors: Option<Vec<Extractor>>,
    pub matchers_condition: Option<String>,
    pub max_redirects: Option<u32>,
    pub redirects: Option<bool>,
    pub pipeline: Option<bool>,
    pub unsafe_request: Option<bool>,
    pub race: Option<bool>,
    pub threads: Option<u32>,
    pub attack: Option<String>,
    pub stop_at_first_match: Option<bool>,
    pub req_condition: Option<bool>,
    pub iterate_all: Option<bool>,
    pub cookie_reuse: Option<bool>,
    pub disable_path_automerge: Option<bool>,
}

impl Default for Request {
    /// `GET /`, matchers combined with `or`, following up to three redirects.
    fn default() -> (r: Self)
        ensures
            r.method matches Some(m) && m@ == "GET"@,
            r.path@.len() == 1 && r.path@[0]@ == "/"@,
            r.headers is None && r.body is None && r.raw_request@.len() == 0,
            r.matchers is None && r.extractors is None,
            r.matchers_condition matches Some(c) && c@ == "or"@,
            r.max_redirects == Some(3u32) && r.redirects == Some(true),
            r.pipeline is None && r.unsafe_request is None && r.race is None && r.threads is None,
            r.attack is None && r.stop_at_first_match is None && r.req_condition is None,
            r.iterate_all is None && r.cookie_reuse is None && r.disable_path_automerge is None,
    {
        let mut path: Vec<String> = Vec::new();
        path.push("/".to_string());
        Request {
            method: Some("GET".to_string()),
            path,
            headers: None,
            body: None,
            raw_request: Vec::new(),
            matchers: None,
            extractors: None,
            matchers_condition: Some("or".to_string()),
            max_redirects: Some(3),
            redirects: Some(true),
            pipeline: None,
            unsafe_request: None,
            race: None,
            threads: None,
            attack: None,
            stop_at_first_match: None,
            req_condition: None,
            iterate_all: None,
            cookie_reuse: None,
            disable_path_automerge: None,
        }
    }
}

/// A DNS request of a template (carried, not executed).
#[derive(Debug, Clone)]
pub struct DnsRequest {
    pub name: Option<String>,
    pub record_type: Option<String>,
    pub class: Option<String>,
    pub retries: Option<u32>,
    pub matchers: Option<Vec<Matcher>>,
    pub extractors: Option<Vec<Extractor>>,
}

/// A network request of a template (carried, not executed).
#[derive(Debug, Clone)]
pub struct NetworkRequest {
    pub address: Option<String>,
    pub data: Option<String>,
    pub matchers: Option<Vec<Matcher>>,
    pub extractors: Option<Vec<Extractor>>,
}

/// The `tags` of a template as written: a list whose items are strings or
/// something else, a single string, or any other value.
#[derive(Debug, Clone)]
pub enum TagsValue {
    List(Vec<Option<String>>),
    Text(String),
    Other,
}

/// Descriptive information of a template.
#[derive(Debug, Clone)]
pub struct Info {
    pub name: String,
    pub author: Vec<String>,
    pub severity: String,
    pub description: Option<String>,
    pub tags: Option<TagsValue>,
    pub remediation: Option<String>,
}

/// A template: an id, its information and its requests by protocol.
#[derive(Debug, Clone)]
pub struct Template {
    pub id: String,
    pub info: Info,
    pub requests: Vec<Request>,
    pub http: Vec<Request>,
    pub dns: Vec<DnsRequest>,
    pub network: Vec<NetworkRequest>,
}

/// Severity rank of a severity name: `info` 1 up to `critical` 5, other names 0.
pub open spec fn severity_rank(severity: Seq<char>) -> u8 {
    let l = lowercase(severity);
    if l == "info"@ {
        1
    } else if l == "low"@ {
        2
    } else if l == "medium"@ {
        3
    } else if l == "high"@ {
        4
    } else if l == "critical"@ {
        5
    } else {
        0
    }
}

/// The string items of a tag list, in order.
pub open spec fn string_items(items: Seq<Option<String>>) -> Seq<Seq<char>>
    decreases items.len(),
{
    if items.len() == 0 {
        Seq::empty()
    } else {
        let rest = string_items(items.drop_last());
        match items.last() {
            Some(s) => rest.push(s@),
            None => rest,
        }
    }
}

/// The tags: the string items of a list, or a comma-separated string split
/// and trimmed, otherwise none.
pub open spec fn tag_list(tags: Option<TagsValue>) -> Seq<Seq<char>> {
    match tags {
        Some(TagsValue::List(items)) => string_items(items@),
        Some(TagsValue::Text(s)) => split_char(s@, ',').map_values(|t: Seq<char>| trim(t)),
        _ => Seq::empty(),
    }
}

impl Template {
    /// The HTTP requests: those under `http` when there are any, otherwise
    /// those under `requests`.
    pub fn get_http_requests(&self) -> (r: Vec<&Request>)
        ensures
            if self.http@.len() > 0 {
                r@.len() == self.http@.len() && forall|i: int|
                    0 <= i < r@.len() ==> *#[trigger] r@[i] == self.http@[i]
            } else {
                r@.len() == self.requests@.len() && forall|i: int|
                    0 <= i < r@.len() ==> *#[trigger] r@[i] == self.requests@[i]
            },
    {
        let source = if self.http.len() > 0 {
            &self.http
        } else {
            &self.requests
        };
        let mut r: Vec<&Request> = Vec::new();
        for i in 0..source.len()
            invariant
                r@.len() == i,
                i <= source@.len(),
                forall|k: int| 0 <= k < i ==> *#[trigger] r@[k] == source@[k],
        {
            r.push(&source[i]);
        }
        r
    }

    /// Whether the template has a request of any protocol.
    pub fn has_requests(&self) -> (b: bool)
        ensures
            b == (self.requests@.len() > 0 || self.http@.len() > 0 || self.dns@.len() > 0
                || self.network@.len() > 0),
    {
        !self.requests.is_empty() || !self.http.is_empty() || !self.dns.is_empty()
            || !self.network.is_empty()
    }

    /// Severity rank: `info` 1, `low` 2, `medium` 3, `high` 4, `critical` 5,
    /// compared case-insensitively; 0 otherwise.
    pub fn severity_level(&self) -> (n: u8)
        ensures
            n == severity_rank(self.info.severity@),
    {
        let l = to_lowercase(self.info.severity.as_str());
        if str_eq(l.as_str(), "info") {
            1
        } else if str_eq(l.as_str(), "low") {
            2
        } else if str_eq(l.as_str(), "medium") {
            3
        } else if str_eq(l.as_str(), "high") {
            4
        } else if str_eq(l.as_str(), "critical") {
            5
        } else {
            0
        }
    }

    /// The template's tags.
    pub fn tags(&self) -> (t: Vec<String>)
        ensures
            t@.map_values(|s: String| s@) == tag_list(self.info.tags),
    {
        match &self.info.tags {
            Some(TagsValue::List(items)) => {
                let mut out: Vec<String> = Vec::new();
                let ghost its = items@;
                for i in 0..items.len()
                    invariant
                        its == items@,
                        out@.map_values(|s: String| s@) == string_items(its.take(i as int)),
                {
                    assert(its.take(i + 1).drop_last() =~= its.take(i as int));
                    match &items[i] {
                        Some(s) => {
                            let ghost before = out@.map_values(|s: String| s@);
                            out.push(s.clone());
                            assert(out@.map_values(|s: String| s@) =~= before.push(s@));
                        },
                        None => {},
                    }
                }
                assert(its.take(its.len() as int) =~= its);
                out
            },
            Some(TagsValue::Text(s)) => {
                let cs = chars_of(s.as_str());
                let pieces = split_char_exec(cs.as_slice(), ',');
                let mut out: Vec<String> = Vec::new();
                let ghost ps = crate::text::views(pieces@);
                for i in 0..pieces.len()
                    invariant
                        ps == crate::text::views(pieces@),
                        out@.len() == i,
                        i <= pieces@.len(),
                        forall|k: int| 0 <= k < i ==> #[trigger] out@[k]@ == trim(ps[k]),
                {
                    out.push(string_of(trim_exec(pieces[i].as_slice())));
                }
                assert(out@.map_values(|s: String| s@) =~= ps.map_values(|t: Seq<char>| trim(t)));
                out
            },
            _ => {
                let out: Vec<String> = Vec::new();
                assert(out@.map_values(|s: String| s@) =~= Seq::<Seq<char>>::empty());
                out
            },
        }
    }
}

} // verus!
