//! Scan configuration, the template filters it holds, and the pieces of
//! command-line handling that compute.

use vstd::prelude::*;
use crate::matcher::strings_view;
use crate::template::{tag_list, Template};
use crate::text::{
    ascii_lower, char_index, char_index_exec, chars_of, contains, contains_exec, lemma_char_index, lines,
    lines_exec, lower_chars, lowercase, string_of, trim, trim_exec, views,
};
use crate::time::TimeSpan;

verus! {

/// How results are written.
#[derive(Debug, Clone, Copy, PartialEq, Eq, Structural)]
pub enum OutputFormat {
    Text,
    Json,
    Yaml,
}

/// The output format a `--format` value names: `json`, `yaml`, anything
/// else text.
pub fn output_format_from(name: &str) -> (f: OutputFormat)
    ensures
        f == (if name@ == "json"@ {
            OutputFormat::Json
        } else if name@ == "yaml"@ {
            OutputFormat::Yaml
        } else {
            OutputFormat::Text
        }),
{
    if crate::text::str_eq(name, "json") {
        OutputFormat::Json
    } else if crate::text::str_eq(name, "yaml") {
        OutputFormat::Yaml
    } else {
        OutputFormat::Text
    }
}

/// What a scan is asked to do. Paths are held as text; the request rate,
/// a fraction, is held by the program that runs the scan.
#[derive(Debug, Clone)]
pub struct Config {
    /// Target URLs to scan.
    pub targets: Vec<String>,
    /// Template files or directories.
    pub templates: Vec<String>,
    /// Output file for results.
    pub output: Option<String>,
    pub output_format: OutputFormat,
    /// Minimum delay between requests.
    pub delay: TimeSpan,
    /// HTTP timeout.
    pub timeout: TimeSpan,
    pub max_redirects: u32,
    pub user_agent: String,
    /// Headers added to every request.
    pub headers: Vec<(String, String)>,
    pub proxy: Option<String>,
    pub verbose: bool,
    /// Only matches are shown.
    pub silent: bool,
    /// Number of responses the cache may hold.
    pub max_cache_size: usize,
    pub severity_filter: Option<Vec<String>>,
    pub tag_filter: Option<Vec<String>>,
    /// Only these template ids run.
    pub include_templates: Option<Vec<String>>,
    /// These template ids never run.
    pub exclude_templates: Option<Vec<String>>,
    pub max_retries: u32,
    pub show_stats: bool,
    /// Number of templates run at once.
    pub concurrency: usize,
    pub no_banner: bool,
    pub no_cache: bool,
    pub clear_cache: bool,
    pub dry_run: bool,
}

impl Default for Config {
    /// No targets or templates, text output, 100 ms between requests, a 30 s
    /// timeout, 3 redirects and 3 retries, user agent `ruclei/1.0`, a cache of
    /// 1000 responses, 25 templates at once, no filters, every flag off.
    fn default() -> (c: Self)
        ensures
            c.targets@.len() == 0 && c.templates@.len() == 0 && c.output is None,
            c.output_format == OutputFormat::Text,
            c.delay.nanos == 100_000_000 && c.timeout.nanos == 30_000_000_000,
            c.max_redirects == 3 && c.user_agent@ == "ruclei/1.0"@,
            c.headers@.len() == 0 && c.proxy is None,
            !c.verbose && !c.silent && c.max_cache_size == 1000,
            c.severity_filter is None && c.tag_filter is None,
            c.include_templates is None && c.exclude_templates is None,
            c.max_retries == 3 && !c.show_stats && c.concurrency == 25,
            !c.no_banner && !c.no_cache && !c.clear_cache && !c.dry_run,
    {
        Config {
            targets: Vec::new(),
            templates: Vec::new(),
            output: None,
            output_format: OutputFormat::Text,
            delay: TimeSpan::from_millis(100),
            timeout: TimeSpan::from_secs(30),
            max_redirects: 3,
            user_agent: "ruclei/1.0".to_string(),
            headers: Vec::new(),
            proxy: None,
            verbose: false,
            silent: false,
            max_cache_size: 1000,
            severity_filter: None,
            tag_filter: None,
            include_templates: None,
            exclude_templates: None,
            max_retries: 3,
            show_stats: false,
            concurrency: 25,
            no_banner: false,
            no_cache: false,
            clear_cache: false,
            dry_run: false,
        }
    }
}

/// The two strings are equal once ASCII letters are lowercased (std's
/// `str::eq_ignore_ascii_case`).
pub open spec fn eq_ignore_ascii_case(a: Seq<char>, b: Seq<char>) -> bool {
    a.len() == b.len() && forall|i: int| 0 <= i < a.len() ==> ascii_lower(#[trigger] a[i]) == ascii_lower(b[i])
}

/// Some item of the list equals `s` up to ASCII case.
pub open spec fn any_eq_ignore_case(list: Seq<Seq<char>>, s: Seq<char>) -> bool {
    exists|i: int| 0 <= i < list.len() && eq_ignore_ascii_case(#[trigger] list[i], s)
}

/// Some template tag, lowercased, contains some filter tag, lowercased.
pub open spec fn tags_overlap(filter: Seq<Seq<char>>, tags: Seq<Seq<char>>) -> bool {
    exists|i: int, j: int|
        0 <= i < filter.len() && 0 <= j < tags.len() && contains(lowercase(#[trigger] tags[j]), lowercase(#[trigger] filter[i]))
}

/// `s` is an item of the list.
pub open spec fn listed(list: Seq<Seq<char>>, s: Seq<char>) -> bool {
    exists|i: int| 0 <= i < list.len() && #[trigger] list[i] == s
}

/// Whether the filters let a template with this id, severity and tags run.
pub open spec fn template_selected(c: Config, t: Template) -> bool {
    &&& (c.severity_filter matches Some(f) ==> any_eq_ignore_case(strings_view(f@), t.info.severity@))
    &&& (c.tag_filter matches Some(f) ==> tag_list(t.info.tags).len() > 0 && tags_overlap(strings_view(f@), tag_list(t.info.tags)))
    &&& (c.include_templates matches Some(inc) ==> listed(strings_view(inc@), t.id@))
    &&& (c.exclude_templates matches Some(exc) ==> !listed(strings_view(exc@), t.id@))
}

fn eq_ignore_ascii_case_exec(a: &str, b: &str) -> (r: bool)
    ensures
        r == eq_ignore_ascii_case(a@, b@),
{
    let ac = chars_of(a);
    let bc = chars_of(b);
    if ac.len() != bc.len() {
        return false;
    }
    let mut i: usize = 0;
    while i < ac.len()
        invariant
            ac@ == a@,
            bc@ == b@,
            ac@.len() == bc@.len(),
            i <= ac@.len(),
            forall|k: int| 0 <= k < i ==> ascii_lower(#[trigger] ac@[k]) == ascii_lower(bc@[k]),
        decreases ac@.len() - i,
    {
        let x = ac[i];
        let y = bc[i];
        let lx = if 'A' <= x && x <= 'Z' {
            ((x as u32) + 32) as u8 as char
        } else {
            x
        };
        let ly = if 'A' <= y && y <= 'Z' {
            ((y as u32) + 32) as u8 as char
        } else {
            y
        };
        assert(lx == ascii_lower(x) && ly == ascii_lower(y));
        if lx != ly {
            return false;
        }
        i = i + 1;
    }
    true
}

fn is_listed(list: &Vec<String>, s: &str) -> (r: bool)
    ensures
        r == listed(strings_view(list@), s@),
{
    let ghost l = strings_view(list@);
    let mut i: usize = 0;
    while i < list.len()
        invariant
            l == strings_view(list@),
            i <= l.len(),
            forall|k: int| 0 <= k < i ==> #[trigger] l[k] != s@,
        decreases l.len() - i,
    {
        if crate::text::str_eq(list[i].as_str(), s) {
            assert(l[i as int] == s@);
            return true;
        }
        i = i + 1;
    }
    false
}

fn severity_listed(list: &Vec<String>, sev: &str) -> (r: bool)
    ensures
        r == any_eq_ignore_case(strings_view(list@), sev@),
{
    let ghost l = strings_view(list@);
    let mut i: usize = 0;
    while i < list.len()
        invariant
            l == strings_view(list@),
            i <= l.len(),
            forall|k: int| 0 <= k < i ==> !eq_ignore_ascii_case(#[trigger] l[k], sev@),
        decreases l.len() - i,
    {
        if eq_ignore_ascii_case_exec(list[i].as_str(), sev) {
            assert(eq_ignore_ascii_case(l[i as int], sev@));
            return true;
        }
        i = i + 1;
    }
    false
}

/// Whether some of the lowered tags contains `needle`.
fn some_contains(lowered: &Vec<Vec<char>>, needle: &[char]) -> (r: bool)
    ensures
        r == exists|b: int| 0 <= b < lowered@.len() && contains(#[trigger] lowered@[b]@, needle@),
{
    let mut j: usize = 0;
    while j < lowered.len()
        invariant
            j <= lowered@.len(),
            forall|b: int| 0 <= b < j ==> !contains(#[trigger] lowered@[b]@, needle@),
        decreases lowered@.len() - j,
    {
        if contains_exec(lowered[j].as_slice(), needle) {
            return true;
        }
        j = j + 1;
    }
    false
}

fn tags_match(filter: &Vec<String>, tags: &Vec<String>) -> (r: bool)
    ensures
        r == tags_overlap(strings_view(filter@), strings_view(tags@)),
{
    let ghost fl = strings_view(filter@);
    let ghost tt = strings_view(tags@);
    let mut lowered: Vec<Vec<char>> = Vec::new();
    for j in 0..tags.len()
        invariant
            tt == strings_view(tags@),
            lowered@.len() == j,
            forall|k: int| 0 <= k < j ==> #[trigger] lowered@[k]@ == lowercase(tt[k]),
    {
        let tc = chars_of(tags[j].as_str());
        lowered.push(lower_chars(tc.as_slice()));
    }
    let mut i: usize = 0;
    while i < filter.len()
        invariant
            fl == strings_view(filter@),
            tt == strings_view(tags@),
            lowered@.len() == tt.len(),
            forall|k: int| 0 <= k < tt.len() ==> #[trigger] lowered@[k]@ == lowercase(tt[k]),
            i <= fl.len(),
            forall|a: int, b: int| 0 <= a < i && 0 <= b < tt.len() ==> !contains(lowercase(#[trigger] tt[b]), lowercase(#[trigger] fl[a])),
        decreases fl.len() - i,
    {
        let fc = chars_of(filter[i].as_str());
        let lf = lower_chars(fc.as_slice());
        if some_contains(&lowered, lf.as_slice()) {
            let ghost b = choose|b: int| 0 <= b < lowered@.len() && contains(#[trigger] lowered@[b]@, lf@);
            assert(contains(lowercase(tt[b]), lowercase(fl[i as int])));
            return true;
        }
        assert forall|a: int, b: int| 0 <= a < i + 1 && 0 <= b < tt.len() implies !contains(lowercase(#[trigger] tt[b]), lowercase(#[trigger] fl[a])) by {
            if a == i {
                assert(lowered@[b]@ == lowercase(tt[b]));
            }
        }
        i = i + 1;
    }
    false
}

impl Config {
    /// Whether a template passes the filters: its severity, compared without
    /// ASCII case, is one of the severity filter; one of its tags, lowercased,
    /// contains one of the tag filter, lowercased (a template without tags
    /// fails a tag filter); its id is included; its id is not excluded.
    pub fn should_include_template(&self, template: &Template) -> (b: bool)
        ensures
            b == template_selected(*self, *template),
    {
        if let Some(sev) = &self.severity_filter {
            if !severity_listed(sev, template.info.severity.as_str()) {
                return false;
            }
        }
        if let Some(tf) = &self.tag_filter {
            let tags = template.tags();
            assert(strings_view(tags@) == tag_list(template.info.tags));
            if tags.len() == 0 {
                return false;
            }
            if !tags_match(tf, &tags) {
                return false;
            }
        }
        if let Some(inc) = &self.include_templates {
            if !is_listed(inc, template.id.as_str()) {
                return false;
            }
        }
        if let Some(exc) = &self.exclude_templates {
            if is_listed(exc, template.id.as_str()) {
                return false;
            }
        }
        true
    }

    /// The delay between requests.
    pub fn get_delay(&self) -> (d: TimeSpan)
        ensures
            d == self.delay,
    {
        self.delay
    }

    /// Verbose output, unless silent.
    pub fn is_verbose(&self) -> (b: bool)
        ensures
            b == (self.verbose && !self.silent),
    {
        self.verbose && !self.silent
    }

    pub fn is_silent(&self) -> (b: bool)
        ensures
            b == self.silent,
    {
        self.silent
    }
}

/// The targets a list file gives: its lines trimmed, without empty lines
/// and lines that begin with `#`.
pub open spec fn target_entries(ls: Seq<Seq<char>>) -> Seq<Seq<char>>
    decreases ls.len(),
{
    if ls.len() == 0 {
        Seq::empty()
    } else {
        let rest = target_entries(ls.drop_last());
        let l = trim(ls.last());
        if l.len() > 0 && l[0] != '#' {
            rest.push(l)
        } else {
            rest
        }
    }
}

/// The targets listed in the text of a target list file.
pub fn parse_target_list(content: &str) -> (r: Vec<String>)
    ensures
        strings_view(r@) == target_entries(lines(content@)),
{
    let cs = chars_of(content);
    let ls = lines_exec(cs.as_slice());
    let ghost lv = views(ls@);
    let mut out: Vec<String> = Vec::new();
    assert(lv.take(0) =~= Seq::<Seq<char>>::empty());
    for i in 0..ls.len()
        invariant
            lv == views(ls@),
            lv == lines(content@),
            strings_view(out@) == target_entries(lv.take(i as int)),
    {
        assert(lv.take(i + 1).drop_last() =~= lv.take(i as int));
        assert(lv.take(i + 1).last() == ls@[i as int]@);
        let l = trim_exec(ls[i].as_slice());
        if l.len() > 0 && l[0] != '#' {
            let ghost before = strings_view(out@);
            out.push(string_of(l));
            assert(strings_view(out@) =~= before.push(l@));
        }
    }
    assert(lv.take(lv.len() as int) =~= lv);
    out
}

/// A `Name: Value` header argument: the trimmed text before the first `:`
/// and the trimmed text after it; none without a `:`.
pub open spec fn header_arg(h: Seq<char>) -> Option<(Seq<char>, Seq<char>)> {
    let c = char_index(h, ':');
    if c < h.len() {
        Some((trim(h.take(c)), trim(h.skip(c + 1))))
    } else {
        None
    }
}

/// Splits a `Name: Value` header argument.
pub fn parse_header_arg(h: &str) -> (r: Option<(String, String)>)
    ensures
        match r {
            Some(p) => header_arg(h@) == Some((p.0@, p.1@)),
            None => header_arg(h@) is None,
        },
{
    let hc = chars_of(h);
    let c = char_index_exec(hc.as_slice(), ':');
    proof {
        lemma_char_index(hc@, ':');
    }
    if c < hc.len() {
        let name = &hc.as_slice()[0..c];
        let value = &hc.as_slice()[c + 1..hc.len()];
        assert(name@ =~= hc@.take(c as int));
        assert(value@ =~= hc@.skip(c + 1));
        Some((string_of(trim_exec(name)), string_of(trim_exec(value))))
    } else {
        None
    }
}

/// Without filters every template runs.
pub proof fn law_no_filters_select_all(c: Config, t: Template)
    requires
        c.severity_filter is None,
        c.tag_filter is None,
        c.include_templates is None,
        c.exclude_templates is None,
    ensures
        template_selected(c, t),
{
}

/// An excluded template never runs, whatever the other filters say.
pub proof fn law_excluded_never_selected(c: Config, t: Template)
    requires
        c.exclude_templates matches Some(exc) && listed(strings_view(exc@), t.id@),
    ensures
        !template_selected(c, t),
{
}

/// Severity filtering ignores ASCII letter case.
pub proof fn law_severity_filter_ignores_case(c: Config, t: Template, u: Template)
    requires
        eq_ignore_ascii_case(t.info.severity@, u.info.severity@),
        c.tag_filter is None,
        c.include_templates is None,
        c.exclude_templates is None,
    ensures
        template_selected(c, t) == template_selected(c, u),
{
    if let Some(f) = c.severity_filter {
        let l = strings_view(f@);
        if any_eq_ignore_case(l, t.info.severity@) {
            let i = choose|i: int| 0 <= i < l.len() && eq_ignore_ascii_case(#[trigger] l[i], t.info.severity@);
            assert(eq_ignore_ascii_case(l[i], u.info.severity@)) by {
                assert forall|k: int| 0 <= k < l[i].len() implies ascii_lower(#[trigger] l[i][k]) == ascii_lower(u.info.severity@[k]) by {
                    assert(ascii_lower(l[i][k]) == ascii_lower(t.info.severity@[k]));
                    assert(ascii_lower(t.info.severity@[k]) == ascii_lower(u.info.severity@[k]));
                }
            }
        }
        if any_eq_ignore_case(l, u.info.severity@) {
            let i = choose|i: int| 0 <= i < l.len() && eq_ignore_ascii_case(#[trigger] l[i], u.info.severity@);
            assert(eq_ignore_ascii_case(l[i], t.info.severity@)) by {
                assert forall|k: int| 0 <= k < l[i].len() implies ascii_lower(#[trigger] l[i][k]) == ascii_lower(t.info.severity@[k]) by {
                    assert(ascii_lower(l[i][k]) == ascii_lower(u.info.severity@[k]));
                    assert(ascii_lower(t.info.severity@[k]) == ascii_lower(u.info.severity@[k]));
                }
            }
        }
    }
}

} // verus!
