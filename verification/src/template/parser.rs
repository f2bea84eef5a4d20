//! What template loading decides: which lines of a template file are YAML,
//! which files are templates, and which parsed templates are usable.

use vstd::prelude::*;
use crate::template::cache::TemplateCache;
use crate::template::Template;
use crate::text::{
    chars_of, joined, lines, lines_exec, starts_with, starts_with_exec, string_of, trim_start,
    trim_start_exec, views,
};

verus! {

/// Why a parsed template cannot be used.
#[derive(Debug, Clone, PartialEq, Eq)]
pub enum TemplateError {
    /// The `id` is empty.
    MissingId,
    /// The `info.name` of the template with this id is empty.
    MissingName(String),
    /// The template with this id has no request of any protocol.
    NoRequests(String),
    /// The template with this id has only DNS or network requests.
    NoHttpRequests(String),
}

/// The abstract content of a `TemplateError`.
pub enum TemplateErrorView {
    MissingId,
    MissingName(Seq<char>),
    NoRequests(Seq<char>),
    NoHttpRequests(Seq<char>),
}

impl View for TemplateError {
    type V = TemplateErrorView;

    open spec fn view(&self) -> TemplateErrorView {
        match self {
            TemplateError::MissingId => TemplateErrorView::MissingId,
            TemplateError::MissingName(id) => TemplateErrorView::MissingName(id@),
            TemplateError::NoRequests(id) => TemplateErrorView::NoRequests(id@),
            TemplateError::NoHttpRequests(id) => TemplateErrorView::NoHttpRequests(id@),
        }
    }
}

/// A signature line left by template signing: `# digest:` after leading
/// whitespace.
pub open spec fn is_digest_line(l: Seq<char>) -> bool {
    starts_with(trim_start(l), "# digest:"@)
}

/// The lines that are not signature lines, in order.
pub open spec fn kept_lines(ls: Seq<Seq<char>>) -> Seq<Seq<char>>
    decreases ls.len(),
{
    if ls.len() == 0 {
        Seq::empty()
    } else if is_digest_line(ls.last()) {
        kept_lines(ls.drop_last())
    } else {
        kept_lines(ls.drop_last()).push(ls.last())
    }
}

/// The template text without its signature lines, lines joined by `\n`.
pub open spec fn without_digest(content: Seq<char>) -> Seq<char> {
    joined(kept_lines(lines(content)), "\n"@)
}

/// The text a template file's YAML is read from: its lines without the
/// signature lines, joined by `\n`.
pub fn strip_digest_lines(content: &str) -> (r: String)
    ensures
        r@ == without_digest(content@),
{
    let cs = chars_of(content);
    let ls = lines_exec(cs.as_slice());
    let ghost lv = views(ls@);
    let marker = chars_of("# digest:");
    let mut kept: Vec<Vec<char>> = Vec::new();
    assert(lv.take(0) =~= Seq::<Seq<char>>::empty());
    assert(views(kept@) =~= Seq::<Seq<char>>::empty());
    for i in 0..ls.len()
        invariant
            lv == views(ls@),
            lv == lines(content@),
            marker@ == "# digest:"@,
            views(kept@) == kept_lines(lv.take(i as int)),
    {
        assert(lv.take(i + 1).drop_last() =~= lv.take(i as int));
        assert(lv.take(i + 1).last() == ls@[i as int]@);
        let t = trim_start_exec(ls[i].as_slice());
        if !starts_with_exec(t, marker.as_slice()) {
            let ghost before = views(kept@);
            kept.push(vstd::slice::slice_to_vec(ls[i].as_slice()));
            assert(views(kept@) =~= before.push(ls@[i as int]@));
        }
    }
    assert(lv.take(lv.len() as int) =~= lv);
    let ghost kv = views(kept@);
    let mut out: Vec<char> = Vec::new();
    assert(kv.take(0) =~= Seq::<Seq<char>>::empty());
    for i in 0..kept.len()
        invariant
            kv == views(kept@),
            out@ == joined(kv.take(i as int), "\n"@),
    {
        assert(kv.take(i + 1).drop_last() =~= kv.take(i as int));
        assert(kv.take(i + 1).last() == kept@[i as int]@);
        if i > 0 {
            out.push('\n');
            proof {
                reveal_strlit("\n");
            }
        } else {
            assert(kv.take(1) =~= seq![kv[0]]);
        }
        let ghost mid = out@;
        out.extend_from_slice(kept[i].as_slice());
        assert(out@ =~= joined(kv.take(i + 1), "\n"@));
    }
    assert(kv.take(kv.len() as int) =~= kv);
    string_of(out.as_slice())
}

/// The extension of a file name as std's `Path::extension` reads it: what
/// follows the last `.`, where that `.` is not the name's first character.
pub open spec fn extension_of(name: Seq<char>) -> Option<Seq<char>> {
    let k = last_dot(name);
    if 0 < k {
        Some(name.skip(k + 1))
    } else {
        None
    }
}

/// Index of the last `.` in `s`, or -1.
pub open spec fn last_dot(s: Seq<char>) -> int
    decreases s.len(),
{
    if s.len() == 0 {
        -1
    } else if s.last() == '.' {
        s.len() - 1
    } else {
        last_dot(s.drop_last())
    }
}

proof fn lemma_last_dot(s: Seq<char>)
    ensures
        -1 <= last_dot(s) < s.len(),
        last_dot(s) >= 0 ==> s[last_dot(s)] == '.',
    decreases s.len(),
{
    if s.len() > 0 && s.last() != '.' {
        lemma_last_dot(s.drop_last());
    }
}

fn last_dot_exec(s: &[char]) -> (r: Option<usize>)
    ensures
        match r {
            Some(k) => last_dot(s@) == k as int,
            None => last_dot(s@) == -1,
        },
{
    let mut j: usize = s.len();
    assert(s@.take(s@.len() as int) =~= s@);
    while j > 0
        invariant
            j <= s@.len(),
            last_dot(s@) == last_dot(s@.take(j as int)),
        decreases j,
    {
        if s[j - 1] == '.' {
            return Some(j - 1);
        }
        assert(s@.take(j as int).drop_last() =~= s@.take(j - 1));
        j = j - 1;
    }
    None
}

/// The extension of a file name.
pub fn file_extension(name: &str) -> (r: Option<String>)
    ensures
        crate::scanner::opt_view(r) == extension_of(name@),
{
    let cs = chars_of(name);
    proof {
        lemma_last_dot(cs@);
    }
    match last_dot_exec(cs.as_slice()) {
        Some(k) => {
            let n = cs.len();
            assert(k < n);
            if k > 0 {
                let tail = &cs.as_slice()[k + 1..n];
                assert(tail@ =~= cs@.skip(k + 1));
                Some(string_of(tail))
            } else {
                None
            }
        },
        None => None,
    }
}

/// A template file is a `.yaml` or `.yml` file.
pub open spec fn is_template_name(name: Seq<char>) -> bool {
    extension_of(name) == Some("yaml"@) || extension_of(name) == Some("yml"@)
}

/// Whether a file of this name is read as a template.
pub fn is_template_file_name(file_name: &str) -> (b: bool)
    ensures
        b == is_template_name(file_name@),
{
    match file_extension(file_name) {
        Some(e) => crate::text::str_eq(e.as_str(), "yaml") || crate::text::str_eq(e.as_str(), "yml"),
        None => false,
    }
}

/// A template whose parts the scanner can run.
pub open spec fn template_check(t: Template) -> Result<(), TemplateErrorView> {
    if t.id@.len() == 0 {
        Err(TemplateErrorView::MissingId)
    } else if t.info.name@.len() == 0 {
        Err(TemplateErrorView::MissingName(t.id@))
    } else if !(t.requests@.len() > 0 || t.http@.len() > 0 || t.dns@.len() > 0 || t.network@.len() > 0) {
        Err(TemplateErrorView::NoRequests(t.id@))
    } else if !(t.requests@.len() > 0 || t.http@.len() > 0) {
        Err(TemplateErrorView::NoHttpRequests(t.id@))
    } else {
        Ok(())
    }
}

/// Loads templates, optionally through the disk cache.
#[derive(Debug)]
pub struct TemplateParser {
    /// The disk cache.
    pub cache: TemplateCache,
    /// The disk cache is not used at all.
    pub no_cache: bool,
}

impl TemplateParser {
    /// A parser that uses the disk cache.
    pub fn new(cache: TemplateCache) -> (p: Self)
        ensures
            !p.no_cache,
            p.cache == cache,
    {
        TemplateParser { cache, no_cache: false }
    }

    /// The same parser, bypassing the disk cache.
    pub fn with_no_cache(self) -> (p: Self)
        ensures
            p.no_cache,
            p.cache == self.cache,
    {
        TemplateParser { no_cache: true, ..self }
    }

    /// The disk cache.
    pub fn cache(&self) -> (c: &TemplateCache)
        ensures
            *c == self.cache,
    {
        &self.cache
    }

    /// Whether a file of this name is read as a template.
    pub fn is_template_file(&self, file_name: &str) -> (b: bool)
        ensures
            b == is_template_name(file_name@),
    {
        is_template_file_name(file_name)
    }

    /// Checks a parsed template: it has an id and a name, and HTTP requests
    /// (templates with only DNS or network requests are not run).
    pub fn validate_template(&self, template: &Template) -> (r: Result<(), TemplateError>)
        ensures
            match r {
                Ok(()) => template_check(*template) is Ok,
                Err(e) => template_check(*template) == Err::<(), TemplateErrorView>(e@),
            },
    {
        if chars_of(template.id.as_str()).len() == 0 {
            return Err(TemplateError::MissingId);
        }
        if chars_of(template.info.name.as_str()).len() == 0 {
            return Err(TemplateError::MissingName(template.id.clone()));
        }
        if !template.has_requests() {
            return Err(TemplateError::NoRequests(template.id.clone()));
        }
        if template.requests.len() == 0 && template.http.len() == 0 {
            return Err(TemplateError::NoHttpRequests(template.id.clone()));
        }
        Ok(())
    }
}

} // verus!
