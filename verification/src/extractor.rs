//! Data extraction from responses: regular-expression captures, key-value
//! pairs, JSON paths and DSL variables.

use vstd::prelude::*;
use crate::matcher::{prepend_ok, strings_view};
use crate::regex_support::{opt_strings, regex_captures, regex_captures_all, regex_valid, RegexCache};
use crate::scanner::opt_view;
use crate::scanner::response::{find_header, headers_text, HttpResponse, ResponseView};
use crate::template::Extractor;
use crate::text::{char_index, char_index_exec, chars_eq_str, chars_of, contains, decimal, find, first_index, lemma_first_index, is_whitespace, is_whitespace_exec, lemma_char_index, lines, lines_exec, split_char, split_char_exec, starts_with, starts_with_exec, ends_with, ends_with_exec, string_of, trim, trim_exec, u64_to_string, views};

verus! {

/// The abstract content of an `ExtractionResult`.
pub struct ExtractionView {
    pub extractor_name: Option<Seq<char>>,
    pub extracted_values: Seq<Seq<char>>,
}

/// What one extractor found.
#[derive(Debug)]
pub struct ExtractionResult {
    pub extractor_name: Option<String>,
    pub extracted_values: Vec<String>,
}

impl View for ExtractionResult {
    type V = ExtractionView;

    open spec fn view(&self) -> ExtractionView {
        ExtractionView {
            extractor_name: opt_view(self.extractor_name),
            extracted_values: strings_view(self.extracted_values@),
        }
    }
}

impl ExtractionResult {
    pub fn new(extractor_name: Option<String>, values: Vec<String>) -> (r: Self)
        ensures
            r.extractor_name == extractor_name,
            r.extracted_values == values,
    {
        ExtractionResult { extractor_name, extracted_values: values }
    }

    pub fn empty(extractor_name: Option<String>) -> (r: Self)
        ensures
            r.extractor_name == extractor_name,
            r.extracted_values@.len() == 0,
    {
        ExtractionResult { extractor_name, extracted_values: Vec::new() }
    }

    /// Whether anything was extracted.
    pub fn has_values(&self) -> (b: bool)
        ensures
            b == (self.extracted_values@.len() > 0),
    {
        self.extracted_values.len() > 0
    }
}

/// Why an extractor could not be evaluated.
#[derive(Debug, Clone, PartialEq, Eq)]
pub enum ExtractError {
    UnsupportedType(String),
    MissingPatterns,
    MissingKeys,
    MissingPaths,
    MissingDsl,
    InvalidRegex(String),
}

/// The abstract content of an `ExtractError`.
pub enum ExtractErrorView {
    UnsupportedType(Seq<char>),
    MissingPatterns,
    MissingKeys,
    MissingPaths,
    MissingDsl,
    InvalidRegex(Seq<char>),
}

impl View for ExtractError {
    type V = ExtractErrorView;

    open spec fn view(&self) -> ExtractErrorView {
        match self {
            ExtractError::UnsupportedType(t) => ExtractErrorView::UnsupportedType(t@),
            ExtractError::MissingPatterns => ExtractErrorView::MissingPatterns,
            ExtractError::MissingKeys => ExtractErrorView::MissingKeys,
            ExtractError::MissingPaths => ExtractErrorView::MissingPaths,
            ExtractError::MissingDsl => ExtractErrorView::MissingDsl,
            ExtractError::InvalidRegex(p) => ExtractErrorView::InvalidRegex(p@),
        }
    }
}

/// A JSON value as the extractor reads it: scalars with their JSON text,
/// arrays and objects with their items and their compact JSON text.
#[derive(Debug)]
pub enum JsonValue {
    Null,
    Bool(bool),
    Number(String),
    Str(String),
    Array(Vec<JsonValue>, String),
    Object(Vec<(String, JsonValue)>, String),
}

#[verifier::external_type_specification]
#[verifier::external_body]
pub struct ExJsonValue(serde_json::Value);

/// The value `serde_json::from_str` parses from the text, converted to a
/// `JsonValue`; none when the text is no JSON.
pub uninterp spec fn json_document(text: Seq<char>) -> Option<JsonValue>;

/// Converts a `serde_json::Value` variant by variant (numbers and compound
/// values also by `to_string`); it makes no other call and decides nothing.
#[verifier::external_body]
fn json_value_from(v: &serde_json::Value) -> JsonValue {
    match v {
        serde_json::Value::Null => JsonValue::Null,
        serde_json::Value::Bool(b) => JsonValue::Bool(*b),
        serde_json::Value::Number(n) => JsonValue::Number(n.to_string()),
        serde_json::Value::String(s) => JsonValue::Str(s.clone()),
        serde_json::Value::Array(a) => JsonValue::Array(a.iter().map(json_value_from).collect(), v.to_string()),
        serde_json::Value::Object(o) => JsonValue::Object(
            o.iter().map(|(k, x)| (k.clone(), json_value_from(x))).collect(),
            v.to_string(),
        ),
    }
}

/// Calls `serde_json::from_str::<serde_json::Value>` and converts the value.
/// The contract claims only that the result is the one named `json_document`
/// of the text.
#[verifier::external_body]
fn parse_json(text: &str) -> (r: Option<JsonValue>)
    ensures
        r == json_document(text@),
{
    match serde_json::from_str::<serde_json::Value>(text) {
        Ok(v) => Some(json_value_from(&v)),
        Err(_) => None,
    }
}

/// The entry of `k` in an object.
pub open spec fn obj_get(entries: Seq<(String, JsonValue)>, k: Seq<char>) -> Option<JsonValue>
    decreases entries.len(),
{
    if entries.len() == 0 {
        None
    } else if entries[0].0@ == k {
        Some(entries[0].1)
    } else {
        obj_get(entries.drop_first(), k)
    }
}

/// `s` without a leading `'+'`.
pub open spec fn plus_stripped(s: Seq<char>) -> Seq<char> {
    if s.len() > 0 && s[0] == '+' {
        s.drop_first()
    } else {
        s
    }
}

/// std's `str::parse::<usize>`: an optional `'+'`, then at least one ASCII
/// digit and nothing else, with a value that fits.
pub open spec fn parse_usize(s: Seq<char>) -> Option<usize> {
    let body = plus_stripped(s);
    if body.len() == 0 || !crate::text::all_digits(body) {
        None
    } else if crate::text::digits_value(body) <= usize::MAX {
        Some(crate::text::digits_value(body) as usize)
    } else {
        None
    }
}

/// One path step into an array: `name[i]` selects item `i`. `None` where
/// the brackets are reversed (`]` before `[`), which the index cannot be
/// cut from.
pub open spec fn array_step(items: Seq<JsonValue>, part: Seq<char>) -> Option<Option<JsonValue>> {
    let b = char_index(part, '[');
    let e = char_index(part, ']');
    if b < part.len() && e < part.len() {
        if e < b + 1 {
            None
        } else {
            match parse_usize(part.subrange(b + 1, e)) {
                Some(i) => Some(
                    if i < items.len() {
                        Some(items[i as int])
                    } else {
                        None
                    },
                ),
                None => Some(None),
            }
        }
    } else {
        Some(None)
    }
}

/// Walks a dotted path: object steps by key (what precedes any `[`), array
/// steps by index. `Some(None)` when a step finds nothing.
pub open spec fn json_walk(cur: JsonValue, parts: Seq<Seq<char>>) -> Option<Option<JsonValue>>
    decreases parts.len(),
{
    if parts.len() == 0 {
        Some(Some(cur))
    } else {
        let part = parts[0];
        match cur {
            JsonValue::Object(entries, _) => match obj_get(entries@, part.take(char_index(part, '['))) {
                Some(v) => json_walk(v, parts.drop_first()),
                None => Some(None),
            },
            JsonValue::Array(items, _) => match array_step(items@, part) {
                None => None,
                Some(None) => Some(None),
                Some(Some(v)) => json_walk(v, parts.drop_first()),
            },
            _ => Some(None),
        }
    }
}

/// The text an extracted JSON value gives: a string's content, otherwise its
/// JSON text.
pub open spec fn json_text(v: JsonValue) -> Seq<char> {
    match v {
        JsonValue::Null => "null"@,
        JsonValue::Bool(b) => if b {
            "true"@
        } else {
            "false"@
        },
        JsonValue::Number(n) => n@,
        JsonValue::Str(s) => s@,
        JsonValue::Array(_, t) => t@,
        JsonValue::Object(_, t) => t@,
    }
}

/// The text at a dotted path in a document.
pub open spec fn json_path_value(doc: JsonValue, path: Seq<char>) -> Option<Option<Seq<char>>> {
    match json_walk(doc, split_char(path, '.')) {
        None => None,
        Some(None) => Some(None),
        Some(Some(v)) => Some(Some(json_text(v))),
    }
}

/// What a lookup that may stop early gives, by views.
pub open spec fn found_view(r: Option<Option<String>>) -> Option<Option<Seq<char>>> {
    match r {
        None => None,
        Some(None) => Some(None),
        Some(Some(s)) => Some(Some(s@)),
    }
}

/// Parses a `usize` as std's `str::parse::<usize>` does.
pub fn parse_usize_exec(s: &[char]) -> (r: Option<usize>)
    ensures
        r == parse_usize(s@),
{
    let start: usize = if s.len() > 0 && s[0] == '+' {
        1
    } else {
        0
    };
    let ghost body = plus_stripped(s@);
    assert(body =~= s@.skip(start as int));
    if start == s.len() {
        return None;
    }
    let mut i: usize = start;
    while i < s.len()
        invariant
            start <= i <= s@.len(),
            body =~= s@.skip(start as int),
            body == plus_stripped(s@),
            forall|k: int| start <= k < i ==> crate::text::is_digit(s@[k]),
        decreases s@.len() - i,
    {
        if !('0' <= s[i] && s[i] <= '9') {
            assert(body[i - start] == s@[i as int]);
            assert(0 <= i - start < body.len());
            assert(!crate::text::is_digit(body[i - start]));
            assert(!crate::text::all_digits(body));
            return None;
        }
        i = i + 1;
    }
    assert(crate::text::all_digits(body));
    let mut acc: usize = 0;
    let mut i: usize = start;
    while i < s.len()
        invariant
            start <= i <= s@.len(),
            body =~= s@.skip(start as int),
            body == plus_stripped(s@),
            crate::text::all_digits(body),
            acc as nat == crate::text::digits_value(body.take(i - start)),
        decreases s@.len() - i,
    {
        assert(crate::text::is_digit(body[i - start]));
        let d = (s[i] as u32 - 48) as usize;
        let ghost pre = body.take(i - start);
        let ghost post = body.take(i - start + 1);
        assert(post.drop_last() =~= pre);
        assert(crate::text::digits_value(post) == crate::text::digits_value(pre) * 10 + d);
        match acc.checked_mul(10) {
            Some(a) => match a.checked_add(d) {
                Some(b) => {
                    acc = b;
                },
                None => {
                    proof {
                        crate::text::lemma_digits_value_prefix(body, i - start + 1);
                    }
                    assert(crate::text::digits_value(body) > usize::MAX);
                    return None;
                },
            },
            None => {
                proof {
                    crate::text::lemma_digits_value_prefix(body, i - start + 1);
                }
                assert(crate::text::digits_value(post) > usize::MAX) by (nonlinear_arith)
                    requires
                        crate::text::digits_value(post) == acc * 10 + d,
                        acc * 10 > usize::MAX,
                ;
                return None;
            },
        }
        i = i + 1;
    }
    assert(body.take(i - start) =~= body);
    Some(acc)
}

/// The entry of `key` in an object.
fn obj_lookup<'a>(entries: &'a Vec<(String, JsonValue)>, key: &[char]) -> (r: Option<&'a JsonValue>)
    ensures
        match r {
            Some(v) => obj_get(entries@, key@) == Some(*v),
            None => obj_get(entries@, key@) is None,
        },
{
    let mut i: usize = 0;
    assert(entries@.skip(0) =~= entries@);
    while i < entries.len()
        invariant
            i <= entries@.len(),
            obj_get(entries@, key@) == obj_get(entries@.skip(i as int), key@),
        decreases entries@.len() - i,
    {
        assert(entries@.skip(i as int).drop_first() =~= entries@.skip(i + 1));
        if chars_eq_str(key, entries[i].0.as_str()) {
            return Some(&entries[i].1);
        }
        i = i + 1;
    }
    None
}

/// The text an extracted JSON value gives.
fn json_text_exec(v: &JsonValue) -> (s: String)
    ensures
        s@ == json_text(*v),
{
    match v {
        JsonValue::Null => "null".to_string(),
        JsonValue::Bool(b) => if *b {
            "true".to_string()
        } else {
            "false".to_string()
        },
        JsonValue::Number(n) => n.clone(),
        JsonValue::Str(s) => s.clone(),
        JsonValue::Array(_, t) => t.clone(),
        JsonValue::Object(_, t) => t.clone(),
    }
}

/// Follows a dotted path into a document: `Some(Some(text))` for the text
/// found, `Some(None)` where a step finds nothing, and `None` for an array
/// step whose `]` comes before its `[`.
pub fn json_path_lookup(json: &JsonValue, path: &str) -> (r: Option<Option<String>>)
    ensures
        found_view(r) == json_path_value(*json, path@),
{
    let pc = chars_of(path);
    let parts = split_char_exec(pc.as_slice(), '.');
    let ghost ps = views(parts@);
    let mut cur: &JsonValue = json;
    let mut i: usize = 0;
    assert(ps.skip(0) =~= ps);
    while i < parts.len()
        invariant
            ps == views(parts@),
            ps == split_char(path@, '.'),
            i <= ps.len(),
            json_walk(*json, ps) == json_walk(*cur, ps.skip(i as int)),
        decreases ps.len() - i,
    {
        let part = parts[i].as_slice();
        let ghost rest = ps.skip(i as int);
        assert(rest[0] == part@);
        assert(rest.drop_first() =~= ps.skip(i + 1));
        match cur {
            JsonValue::Object(entries, _) => {
                let k = char_index_exec(part, '[');
                proof {
                    lemma_char_index(part@, '[');
                }
                let clean = &part[0..k];
                assert(clean@ =~= part@.take(k as int));
                match obj_lookup(entries, clean) {
                    Some(v) => {
                        cur = v;
                    },
                    None => {
                        return Some(None);
                    },
                }
            },
            JsonValue::Array(items, _) => {
                let b = char_index_exec(part, '[');
                let e = char_index_exec(part, ']');
                proof {
                    lemma_char_index(part@, '[');
                    lemma_char_index(part@, ']');
                }
                if b < part.len() && e < part.len() {
                    if e < b + 1 {
                        return None;
                    }
                    let digits = &part[b + 1..e];
                    assert(digits@ =~= part@.subrange(b + 1, e as int));
                    match parse_usize_exec(digits) {
                        Some(idx) => {
                            if idx < items.len() {
                                cur = &items[idx];
                            } else {
                                return Some(None);
                            }
                        },
                        None => {
                            return Some(None);
                        },
                    }
                } else {
                    return Some(None);
                }
            },
            _ => {
                return Some(None);
            },
        }
        i = i + 1;
    }
    assert(ps.skip(i as int) =~= Seq::<Seq<char>>::empty());
    Some(Some(json_text_exec(cur)))
}

/// The whole response as text: the headers, a blank line, the body.
pub open spec fn full_text(r: ResponseView) -> Seq<char> {
    headers_text(r.headers) + "\n\n"@ + r.body
}

/// The text an extractor searches: `header` gives the headers, `body` the
/// body, `all` or no part the whole response, any other part the body.
pub open spec fn search_text(part: Option<Seq<char>>, r: ResponseView) -> Seq<char> {
    match part {
        None => full_text(r),
        Some(p) => if p == "header"@ {
            headers_text(r.headers)
        } else if p == "body"@ {
            r.body
        } else if p == "all"@ {
            full_text(r)
        } else {
            r.body
        },
    }
}

/// The present items, in order.
pub open spec fn present(gs: Seq<Option<Seq<char>>>) -> Seq<Seq<char>>
    decreases gs.len(),
{
    if gs.len() == 0 {
        Seq::empty()
    } else {
        let rest = present(gs.drop_last());
        match gs.last() {
            Some(v) => rest.push(v),
            None => rest,
        }
    }
}

/// `present` of a single item.
pub proof fn lemma_present_one(x: Option<Seq<char>>)
    ensures
        present(seq![x]) == match x {
            Some(v) => seq![v],
            None => Seq::<Seq<char>>::empty(),
        },
{
    assert(seq![x].drop_last() =~= Seq::<Option<Seq<char>>>::empty());
    assert(seq![x].last() == x);
    assert(present(Seq::<Option<Seq<char>>>::empty()) == Seq::<Seq<char>>::empty());
    assert(Seq::<Seq<char>>::empty().push(x->Some_0) =~= seq![x->Some_0]);
}

/// What one regex match gives: the chosen group if it took part; without a
/// chosen group, every group that took part, or the whole match where the
/// pattern has no groups.
pub open spec fn row_values(row: Seq<Option<Seq<char>>>, group: Option<u32>) -> Seq<Seq<char>> {
    match group {
        Some(g) => if (g as int) < row.len() {
            present(seq![row[g as int]])
        } else {
            Seq::empty()
        },
        None => if row.len() > 1 {
            present(row.skip(1))
        } else if row.len() == 1 {
            present(row)
        } else {
            Seq::empty()
        },
    }
}

/// What all matches give, in order.
pub open spec fn rows_values(rows: Seq<Seq<Option<Seq<char>>>>, group: Option<u32>) -> Seq<Seq<char>>
    decreases rows.len(),
{
    if rows.len() == 0 {
        Seq::empty()
    } else {
        rows_values(rows.drop_last(), group) + row_values(rows.last(), group)
    }
}

/// What the patterns extract from `text`, pattern by pattern, or the first
/// pattern that does not compile.
pub open spec fn regex_values(ps: Seq<Seq<char>>, text: Seq<char>, group: Option<u32>) -> Result<Seq<Seq<char>>, Seq<char>>
    decreases ps.len(),
{
    if ps.len() == 0 {
        Ok(Seq::empty())
    } else if !regex_valid(ps[0]) {
        Err(ps[0])
    } else {
        prepend_ok(rows_values(regex_captures(ps[0], text), group), regex_values(ps.drop_first(), text, group))
    }
}

/// A character that ends a key-value value: whitespace or one of `"';,`.
pub open spec fn is_delimiter(c: char) -> bool {
    is_whitespace(c) || c == '"' || c == '\'' || c == ';' || c == ','
}

/// Index of the first delimiter in `s`, or `s.len()`.
pub open spec fn delimiter_index(s: Seq<char>) -> int
    decreases s.len(),
{
    if s.len() == 0 {
        0
    } else if is_delimiter(s[0]) {
        0
    } else {
        1 + delimiter_index(s.drop_first())
    }
}

/// The value after `key` and `sep` in a trimmed line: what follows, trimmed,
/// up to the first delimiter.
pub open spec fn sep_value(line: Seq<char>, key: Seq<char>, sep: Seq<char>) -> Option<Seq<char>> {
    let needle = key + sep;
    if contains(line, needle) {
        let v = trim(line.skip(first_index(line, needle) + needle.len()));
        Some(v.take(delimiter_index(v)))
    } else {
        None
    }
}

/// The value of `key` in one line, trying `key=`, `key:` and `key ` in turn.
pub open spec fn line_value(line: Seq<char>, key: Seq<char>) -> Option<Seq<char>> {
    let l = trim(line);
    match sep_value(l, key, "="@) {
        Some(v) => Some(v),
        None => match sep_value(l, key, ":"@) {
            Some(v) => Some(v),
            None => sep_value(l, key, " "@),
        },
    }
}

/// The value of `key` in the first line that holds one.
pub open spec fn key_value(ls: Seq<Seq<char>>, key: Seq<char>) -> Option<Seq<char>>
    decreases ls.len(),
{
    if ls.len() == 0 {
        None
    } else {
        match line_value(ls[0], key) {
            Some(v) => Some(v),
            None => key_value(ls.drop_first(), key),
        }
    }
}

/// What a key-value extractor finds for one key: the header of that name
/// when the part is `header`, else the key's value in the searched text.
pub open spec fn kval_found(key: Seq<char>, part: Option<Seq<char>>, r: ResponseView) -> Option<Seq<char>> {
    if part == Some("header"@) {
        find_header(r.headers, key)
    } else {
        key_value(lines(search_text(part, r)), key)
    }
}

/// What a JSON extractor finds for one path in a parsed document.
pub open spec fn json_found(doc: JsonValue, path: Seq<char>) -> Option<Seq<char>> {
    match json_path_value(doc, path) {
        Some(Some(t)) => Some(t),
        _ => None,
    }
}

/// What a JSON extractor finds for its paths: nothing when the text is no JSON.
pub open spec fn json_values(doc: Option<JsonValue>, paths: Seq<Seq<char>>) -> Seq<Seq<char>> {
    match doc {
        None => Seq::empty(),
        Some(d) => present(paths.map_values(|p: Seq<char>| json_found(d, p))),
    }
}

/// What a DSL extraction expression gives: `status_code`, `content_length`,
/// `body`, or `header[NAME]`; nothing for anything else.
pub open spec fn dsl_extract(e: Seq<char>, r: ResponseView) -> Option<Seq<char>> {
    if e == "status_code"@ {
        Some(decimal(r.status as nat))
    } else if e == "content_length"@ {
        Some(decimal(r.content_length as nat))
    } else if e == "body"@ {
        Some(r.body)
    } else if starts_with(e, "header["@) && ends_with(e, "]"@) {
        find_header(r.headers, e.subrange(7, e.len() - 1))
    } else {
        None
    }
}

/// What one extractor gives on a response: its values, or why it cannot run.
pub open spec fn extraction_outcome(e: Extractor, r: ResponseView) -> Result<Seq<Seq<char>>, ExtractErrorView> {
    let t = e.extractor_type@;
    let text = search_text(opt_view(e.part), r);
    if t == "regex"@ {
        match e.regex {
            None => Err(ExtractErrorView::MissingPatterns),
            Some(ps) => match regex_values(strings_view(ps@), text, e.group) {
                Ok(v) => Ok(v),
                Err(p) => Err(ExtractErrorView::InvalidRegex(p)),
            },
        }
    } else if t == "kval"@ {
        match e.kval {
            None => Err(ExtractErrorView::MissingKeys),
            Some(ks) => Ok(present(strings_view(ks@).map_values(|k: Seq<char>| kval_found(k, opt_view(e.part), r)))),
        }
    } else if t == "xpath"@ {
        Ok(Seq::empty())
    } else if t == "json"@ {
        match e.json {
            None => Err(ExtractErrorView::MissingPaths),
            Some(ps) => Ok(json_values(json_document(text), strings_view(ps@))),
        }
    } else if t == "dsl"@ {
        match e.dsl {
            None => Err(ExtractErrorView::MissingDsl),
            Some(es) => Ok(present(strings_view(es@).map_values(|x: Seq<char>| dsl_extract(x, r)))),
        }
    } else {
        Err(ExtractErrorView::UnsupportedType(t))
    }
}

/// The extractor can be evaluated on the response: a JSON extractor whose
/// text parses meets no array step with `]` before `[` on any of its paths.
pub open spec fn extraction_defined(e: Extractor, r: ResponseView) -> bool {
    e.extractor_type@ == "json"@ ==> match e.json {
        None => true,
        Some(ps) => match json_document(search_text(opt_view(e.part), r)) {
            None => true,
            Some(d) => forall|i: int| 0 <= i < ps@.len() ==> #[trigger] json_path_value(d, ps@[i]@) is Some,
        },
    }
}

/// Appends the present items of `gs` to `out`.
fn push_present(out: &mut Vec<String>, gs: &Vec<Option<String>>, from: usize)
    requires
        from <= gs@.len(),
    ensures
        strings_view(final(out)@) == strings_view(old(out)@) + present(opt_strings(gs@).skip(from as int)),
{
    let ghost g = opt_strings(gs@);
    let ghost start = strings_view(out@);
    let mut i: usize = from;
    assert(g.skip(from as int).take(0) =~= Seq::<Option<Seq<char>>>::empty());
    while i < gs.len()
        invariant
            from <= i <= gs@.len(),
            g == opt_strings(gs@),
            strings_view(out@) == start + present(g.skip(from as int).take(i - from)),
        decreases gs@.len() - i,
    {
        let ghost pre = g.skip(from as int).take(i - from);
        let ghost post = g.skip(from as int).take(i - from + 1);
        assert(post.drop_last() =~= pre);
        assert(post.last() == g[i as int]);
        match &gs[i] {
            Some(v) => {
                let ghost before = strings_view(out@);
                out.push(v.clone());
                assert(strings_view(out@) =~= before.push(v@));
                assert(start + present(post) =~= (start + present(pre)).push(v@));
            },
            None => {},
        }
        i = i + 1;
    }
    assert(g.skip(from as int).take(i - from) =~= g.skip(from as int));
}

/// Extracts data from responses with template extractors, keeping compiled
/// regular expressions between calls.
#[derive(Debug)]
pub struct ExtractorEngine {
    regex_cache: RegexCache,
}

impl ExtractorEngine {
    pub fn new() -> (e: Self)
        ensures
            e.cache_size() == 0,
    {
        ExtractorEngine { regex_cache: RegexCache::new() }
    }

    /// Number of compiled patterns held.
    pub closed spec fn cache_size(&self) -> nat {
        self.regex_cache.size()
    }

    /// The text an extractor searches.
    fn get_search_text(&self, e: &Extractor, response: &HttpResponse) -> (s: String)
        ensures
            s@ == search_text(opt_view(e.part), response@),
    {
        match &e.part {
            None => response.full_response(),
            Some(p) => {
                let p = p.as_str();
                if crate::text::str_eq(p, "header") {
                    response.headers_string()
                } else if crate::text::str_eq(p, "body") {
                    response.body.clone()
                } else if crate::text::str_eq(p, "all") {
                    response.full_response()
                } else {
                    response.body.clone()
                }
            },
        }
    }

    /// Appends what one regex match gives.
    fn push_row_values(out: &mut Vec<String>, row: &Vec<Option<String>>, group: Option<u32>)
        ensures
            strings_view(final(out)@) == strings_view(old(out)@) + row_values(opt_strings(row@), group),
    {
        let ghost g = opt_strings(row@);
        match group {
            Some(n) => {
                let k = n as usize;
                if k < row.len() {
                    let ghost before = strings_view(out@);
                    proof {
                        lemma_present_one(g[k as int]);
                    }
                    match &row[k] {
                        Some(v) => {
                            out.push(v.clone());
                            assert(seq![g[k as int]].drop_last() =~= Seq::<Option<Seq<char>>>::empty());
                            assert(strings_view(out@) =~= before.push(v@));
                            assert(present(seq![g[k as int]]) =~= seq![v@]);
                        },
                        None => {
                            assert(g[k as int] is None);
                            assert(seq![g[k as int]].drop_last() =~= Seq::<Option<Seq<char>>>::empty());
                            assert(present(seq![g[k as int]]) =~= Seq::<Seq<char>>::empty());
                            assert(before + Seq::<Seq<char>>::empty() =~= before);
                        },
                    }
                } else {
                    assert(strings_view(out@) + Seq::<Seq<char>>::empty() =~= strings_view(out@));
                }
            },
            None => {
                if row.len() > 1 {
                    push_present(out, row, 1);
                } else if row.len() == 1 {
                    assert(g.skip(0) =~= g);
                    push_present(out, row, 0);
                } else {
                    assert(strings_view(out@) + Seq::<Seq<char>>::empty() =~= strings_view(out@));
                }
            },
        }
    }

    /// Extracts with regex patterns: every match of every pattern, in order.
    fn extract_regex(&mut self, e: &Extractor, response: &HttpResponse) -> (r: Result<ExtractionResult, ExtractError>)
        requires
            e.extractor_type@ == "regex"@,
        ensures
            extraction_matches(r, *e, response@),
    {
        match &e.regex {
            None => Err(ExtractError::MissingPatterns),
            Some(patterns) => {
                let text = self.get_search_text(e, response);
                let ghost ps = strings_view(patterns@);
                let mut values: Vec<String> = Vec::new();
                let mut i: usize = 0;
                assert(ps.skip(0) =~= ps);
                assert(strings_view(values@) =~= Seq::<Seq<char>>::empty());
                while i < patterns.len()
                    invariant
                        e.regex == Some(*patterns),
                        e.extractor_type@ == "regex"@,
                        ps == strings_view(patterns@),
                        text@ == search_text(opt_view(e.part), response@),
                        i <= ps.len(),
                        regex_values(ps, text@, e.group) == prepend_ok(strings_view(values@), regex_values(ps.skip(i as int), text@, e.group)),
                    decreases ps.len() - i,
                {
                    let ghost rest = ps.skip(i as int);
                    assert(rest[0] == patterns@[i as int]@);
                    assert(rest.drop_first() =~= ps.skip(i + 1));
                    let ghost before = strings_view(values@);
                    match self.regex_cache.get_or_compile(patterns[i].as_str()) {
                        Ok(re) => {
                            let rows = regex_captures_all(re, text.as_str());
                            let ghost rv = rows@.map_values(|row: Vec<Option<String>>| opt_strings(row@));
                            assert(rv == regex_captures(rest[0], text@));
                            let mut j: usize = 0;
                            assert(rv.take(0) =~= Seq::<Seq<Option<Seq<char>>>>::empty());
                            assert(before + rows_values(rv.take(0), e.group) =~= before);
                            while j < rows.len()
                                invariant
                                    j <= rows@.len(),
                                    rv == rows@.map_values(|row: Vec<Option<String>>| opt_strings(row@)),
                                    strings_view(values@) == before + rows_values(rv.take(j as int), e.group),
                                decreases rows@.len() - j,
                            {
                                assert(rv.take(j + 1).drop_last() =~= rv.take(j as int));
                                assert(rv.take(j + 1).last() == opt_strings(rows@[j as int]@));
                                let ghost mid = strings_view(values@);
                                Self::push_row_values(&mut values, &rows[j], e.group);
                                assert(strings_view(values@) =~= before + rows_values(rv.take(j + 1), e.group));
                                j = j + 1;
                            }
                            assert(rv.take(j as int) =~= rv);
                            proof {
                                match regex_values(ps.skip(i + 1), text@, e.group) {
                                    Ok(t) => {
                                        assert(before + (rows_values(rv, e.group) + t) =~= (before + rows_values(rv, e.group)) + t);
                                    },
                                    Err(_) => {},
                                }
                            }
                        },
                        Err(_) => {
                            assert(regex_values(rest, text@, e.group) == Err::<Seq<Seq<char>>, Seq<char>>(rest[0]));
                            assert(regex_values(ps, text@, e.group) == Err::<Seq<Seq<char>>, Seq<char>>(rest[0]));
                            let p = patterns[i].clone();
                            assert(p@ == rest[0]);
                            return Err(ExtractError::InvalidRegex(p));
                        },
                    }
                    i = i + 1;
                }
                assert(ps.skip(i as int) =~= Seq::<Seq<char>>::empty());
                assert(strings_view(values@) + Seq::<Seq<char>>::empty() =~= strings_view(values@));
                Ok(ExtractionResult::new(e.name.clone(), values))
            },
        }
    }
}

/// Index of the first delimiter in `s`, or its length.
fn delimiter_index_exec(s: &[char]) -> (r: usize)
    ensures
        r == delimiter_index(s@),
{
    let mut i: usize = 0;
    assert(s@.skip(0) =~= s@);
    while i < s.len() && !(is_whitespace_exec(s[i]) || s[i] == '"' || s[i] == '\'' || s[i] == ';' || s[i] == ',')
        invariant
            i <= s@.len(),
            delimiter_index(s@) == i + delimiter_index(s@.skip(i as int)),
        decreases s@.len() - i,
    {
        assert(s@.skip(i as int).drop_first() =~= s@.skip(i + 1));
        i = i + 1;
    }
    i
}

proof fn lemma_delimiter_index(s: Seq<char>)
    ensures
        0 <= delimiter_index(s) <= s.len(),
    decreases s.len(),
{
    if s.len() > 0 && !is_delimiter(s[0]) {
        lemma_delimiter_index(s.drop_first());
    }
}

/// The value after `key` and `sep` in a trimmed line.
fn sep_value_exec(line: &[char], key: &[char], sep: &str) -> (r: Option<String>)
    ensures
        opt_view(r) == sep_value(line@, key@, sep@),
{
    let mut needle: Vec<char> = vstd::slice::slice_to_vec(key);
    let sc = chars_of(sep);
    needle.extend_from_slice(sc.as_slice());
    assert(needle@ == key@ + sep@);
    match find(line, needle.as_slice()) {
        None => None,
        Some(p) => {
            proof {
                lemma_first_index(line@, needle@, p as int);
            }
            assert(crate::text::occurs_at(line@, needle@, p as int));
            let n = line.len();
            assert(p + needle@.len() <= n);
            let start = p + needle.len();
            let after = &line[start..n];
            assert(after@ =~= line@.skip(p + needle@.len()));
            let v = trim_exec(after);
            let d = delimiter_index_exec(v);
            proof {
                lemma_delimiter_index(v@);
            }
            let cut = &v[0..d];
            assert(cut@ =~= v@.take(d as int));
            Some(string_of(cut))
        },
    }
}

/// The value of `key` in one line.
fn line_value_exec(line: &[char], key: &[char]) -> (r: Option<String>)
    ensures
        opt_view(r) == line_value(line@, key@),
{
    let l = trim_exec(line);
    match sep_value_exec(l, key, "=") {
        Some(v) => Some(v),
        None => match sep_value_exec(l, key, ":") {
            Some(v) => Some(v),
            None => sep_value_exec(l, key, " "),
        },
    }
}

/// What a DSL extraction expression gives.
fn dsl_extract_exec(expr: &str, response: &HttpResponse) -> (r: Option<String>)
    ensures
        opt_view(r) == dsl_extract(expr@, response@),
{
    if crate::text::str_eq(expr, "status_code") {
        return Some(u64_to_string(response.status as u64));
    }
    if crate::text::str_eq(expr, "content_length") {
        return Some(u64_to_string(response.content_length));
    }
    if crate::text::str_eq(expr, "body") {
        return Some(response.body.clone());
    }
    let ec = chars_of(expr);
    let hc = chars_of("header[");
    let bc = chars_of("]");
    if starts_with_exec(ec.as_slice(), hc.as_slice()) && ends_with_exec(ec.as_slice(), bc.as_slice()) {
        proof {
            reveal_strlit("header[");
            reveal_strlit("]");
        }
        assert(ec@.len() >= 8) by {
            if ec@.len() == 7 {
                assert(ec@.take(7)[6] == '[');
                assert(ec@.skip(6)[0] == ']');
            }
        }
        let name = string_of(&ec.as_slice()[7..ec.len() - 1]);
        assert(name@ =~= expr@.subrange(7, expr@.len() - 1));
        match response.get_header(name.as_str()) {
            Some(v) => Some(v.clone()),
            None => None,
        }
    } else {
        None
    }
}

/// Appends the present items of a lookup to `out`.
proof fn lemma_present_push(gs: Seq<Option<Seq<char>>>, i: int)
    requires
        0 <= i < gs.len(),
    ensures
        present(gs.take(i + 1)) == match gs[i] {
            Some(v) => present(gs.take(i)).push(v),
            None => present(gs.take(i)),
        },
{
    assert(gs.take(i + 1).drop_last() =~= gs.take(i));
    assert(gs.take(i + 1).last() == gs[i]);
}

impl ExtractorEngine {
    /// The value of `key` in the first line of `text` that holds one, as
    /// `key=value`, `key:value` or `key value`; the value is trimmed and ends
    /// at the first whitespace or one of `"';,`.
    fn extract_key_value(&self, text: &str, key: &str) -> (r: Option<String>)
        ensures
            opt_view(r) == key_value(lines(text@), key@),
    {
        let tc = chars_of(text);
        let ls = lines_exec(tc.as_slice());
        let kc = chars_of(key);
        let ghost lv = views(ls@);
        let mut i: usize = 0;
        assert(lv.skip(0) =~= lv);
        while i < ls.len()
            invariant
                lv == views(ls@),
                lv == lines(text@),
                kc@ == key@,
                i <= lv.len(),
                key_value(lv, key@) == key_value(lv.skip(i as int), key@),
            decreases lv.len() - i,
        {
            assert(lv.skip(i as int).drop_first() =~= lv.skip(i + 1));
            assert(lv.skip(i as int)[0] == ls@[i as int]@);
            match line_value_exec(ls[i].as_slice(), kc.as_slice()) {
                Some(v) => {
                    return Some(v);
                },
                None => {},
            }
            i = i + 1;
        }
        None
    }

    /// Extracts key-value pairs: from the headers when the part is `header`,
    /// else from the searched text.
    fn extract_kval(&self, e: &Extractor, response: &HttpResponse) -> (r: Result<ExtractionResult, ExtractError>)
        requires
            e.extractor_type@ == "kval"@,
            e.extractor_type@ != "regex"@,
        ensures
            extraction_matches(r, *e, response@),
    {
        match &e.kval {
            None => Err(ExtractError::MissingKeys),
            Some(keys) => {
                let ghost ks = strings_view(keys@);
                let ghost found = ks.map_values(|k: Seq<char>| kval_found(k, opt_view(e.part), response@));
                let from_headers = match &e.part {
                    Some(p) => crate::text::str_eq(p.as_str(), "header"),
                    None => false,
                };
                let mut values: Vec<String> = Vec::new();
                assert(found.take(0) =~= Seq::<Option<Seq<char>>>::empty());
                for i in 0..keys.len()
                    invariant
                        ks == strings_view(keys@),
                        found == ks.map_values(|k: Seq<char>| kval_found(k, opt_view(e.part), response@)),
                        from_headers == (opt_view(e.part) == Some("header"@)),
                        strings_view(values@) == present(found.take(i as int)),
                {
                    proof {
                        lemma_present_push(found, i as int);
                    }
                    let ghost before = strings_view(values@);
                    let v = if from_headers {
                        match response.get_header(keys[i].as_str()) {
                            Some(v) => Some(v.clone()),
                            None => None,
                        }
                    } else {
                        let text = self.get_search_text(e, response);
                        self.extract_key_value(text.as_str(), keys[i].as_str())
                    };
                    assert(opt_view(v) == found[i as int]);
                    match v {
                        Some(v) => {
                            values.push(v);
                            assert(strings_view(values@) =~= before.push(found[i as int]->Some_0));
                        },
                        None => {},
                    }
                }
                assert(found.take(keys@.len() as int) =~= found);
                Ok(ExtractionResult::new(e.name.clone(), values))
            },
        }
    }

    /// XPath extraction finds nothing.
    fn extract_xpath(&self, e: &Extractor, response: &HttpResponse) -> (r: Result<ExtractionResult, ExtractError>)
        requires
            e.extractor_type@ == "xpath"@,
            e.extractor_type@ != "regex"@ && e.extractor_type@ != "kval"@,
        ensures
            extraction_matches(r, *e, response@),
    {
        let r = ExtractionResult::empty(e.name.clone());
        assert(strings_view(r.extracted_values@) =~= Seq::<Seq<char>>::empty());
        Ok(r)
    }

    /// Extracts with DSL expressions.
    fn extract_dsl(&self, e: &Extractor, response: &HttpResponse) -> (r: Result<ExtractionResult, ExtractError>)
        requires
            e.extractor_type@ == "dsl"@,
            e.extractor_type@ != "regex"@ && e.extractor_type@ != "kval"@ && e.extractor_type@ != "xpath"@
                && e.extractor_type@ != "json"@,
        ensures
            extraction_matches(r, *e, response@),
    {
        match &e.dsl {
            None => Err(ExtractError::MissingDsl),
            Some(exprs) => {
                let ghost xs = strings_view(exprs@);
                let ghost found = xs.map_values(|x: Seq<char>| dsl_extract(x, response@));
                let mut values: Vec<String> = Vec::new();
                assert(found.take(0) =~= Seq::<Option<Seq<char>>>::empty());
                for i in 0..exprs.len()
                    invariant
                        xs == strings_view(exprs@),
                        found == xs.map_values(|x: Seq<char>| dsl_extract(x, response@)),
                        strings_view(values@) == present(found.take(i as int)),
                {
                    proof {
                        lemma_present_push(found, i as int);
                    }
                    let ghost before = strings_view(values@);
                    let v = dsl_extract_exec(exprs[i].as_str(), response);
                    match v {
                        Some(v) => {
                            values.push(v);
                            assert(strings_view(values@) =~= before.push(found[i as int]->Some_0));
                        },
                        None => {},
                    }
                }
                assert(found.take(exprs@.len() as int) =~= found);
                Ok(ExtractionResult::new(e.name.clone(), values))
            },
        }
    }

    /// Extracts with JSON paths from the searched text, when it parses.
    fn extract_json(&self, e: &Extractor, response: &HttpResponse) -> (r: Result<ExtractionResult, ExtractError>)
        requires
            e.extractor_type@ == "json"@,
            e.extractor_type@ != "regex"@ && e.extractor_type@ != "kval"@ && e.extractor_type@ != "xpath"@,
            extraction_defined(*e, response@),
        ensures
            extraction_matches(r, *e, response@),
    {
        match &e.json {
            None => Err(ExtractError::MissingPaths),
            Some(paths) => {
                let text = self.get_search_text(e, response);
                let mut values: Vec<String> = Vec::new();
                match parse_json(text.as_str()) {
                    None => {
                        assert(strings_view(values@) =~= Seq::<Seq<char>>::empty());
                    },
                    Some(doc) => {
                        let ghost ps = strings_view(paths@);
                        let ghost found = ps.map_values(|p: Seq<char>| json_found(doc, p));
                        assert(found.take(0) =~= Seq::<Option<Seq<char>>>::empty());
                        for i in 0..paths.len()
                            invariant
                                ps == strings_view(paths@),
                                found == ps.map_values(|p: Seq<char>| json_found(doc, p)),
                                forall|k: int| 0 <= k < paths@.len() ==> #[trigger] json_path_value(doc, paths@[k]@) is Some,
                                strings_view(values@) == present(found.take(i as int)),
                        {
                            proof {
                                lemma_present_push(found, i as int);
                            }
                            let ghost before = strings_view(values@);
                            assert(json_path_value(doc, paths@[i as int]@) is Some);
                            match json_path_lookup(&doc, paths[i].as_str()) {
                                Some(Some(v)) => {
                                    values.push(v);
                                    assert(strings_view(values@) =~= before.push(found[i as int]->Some_0));
                                },
                                _ => {},
                            }
                        }
                        assert(found.take(paths@.len() as int) =~= found);
                    },
                }
                Ok(ExtractionResult::new(e.name.clone(), values))
            },
        }
    }
}

/// Extracted values by key, as character sequences.
pub open spec fn entries_view(v: Seq<(String, Vec<String>)>) -> Seq<(Seq<char>, Seq<Seq<char>>)> {
    v.map_values(|p: (String, Vec<String>)| (p.0@, strings_view(p.1@)))
}

/// Index of the entry under `k`, or the number of entries.
pub open spec fn entry_index(m: Seq<(Seq<char>, Seq<Seq<char>>)>, k: Seq<char>) -> int
    decreases m.len(),
{
    if m.len() == 0 {
        0
    } else if m[0].0 == k {
        0
    } else {
        1 + entry_index(m.drop_first(), k)
    }
}

pub proof fn lemma_entry_index(m: Seq<(Seq<char>, Seq<Seq<char>>)>, k: Seq<char>)
    ensures
        0 <= entry_index(m, k) <= m.len(),
        entry_index(m, k) < m.len() ==> m[entry_index(m, k)].0 == k,
        forall|j: int| 0 <= j < entry_index(m, k) ==> m[j].0 != k,
    decreases m.len(),
{
    if m.len() > 0 && m[0].0 != k {
        lemma_entry_index(m.drop_first(), k);
        assert forall|j: int| 0 <= j < entry_index(m, k) implies m[j].0 != k by {
            if j > 0 {
                assert(m[j] == m.drop_first()[j - 1]);
            }
        }
    }
}

/// `m` with `v` under `k`: the entry replaced in place, or appended.
pub open spec fn insert_entry(m: Seq<(Seq<char>, Seq<Seq<char>>)>, k: Seq<char>, v: Seq<Seq<char>>) -> Seq<(Seq<char>, Seq<Seq<char>>)> {
    let i = entry_index(m, k);
    if i < m.len() {
        m.update(i, (k, v))
    } else {
        m.push((k, v))
    }
}

/// The key results are stored under: the extractor's name, else
/// `extractor_N` with `N` the number of entries so far.
pub open spec fn entry_key(name: Option<Seq<char>>, n: nat) -> Seq<char> {
    match name {
        Some(s) => s,
        None => "extractor_"@ + decimal(n),
    }
}

/// Runs the extractors in order from the entries `acc`: each that finds
/// something stores its values under its key; the first error stops.
pub open spec fn extract_all_from(es: Seq<Extractor>, acc: Seq<(Seq<char>, Seq<Seq<char>>)>, r: ResponseView) -> Result<Seq<(Seq<char>, Seq<Seq<char>>)>, ExtractErrorView>
    decreases es.len(),
{
    if es.len() == 0 {
        Ok(acc)
    } else {
        match extraction_outcome(es[0], r) {
            Err(e) => Err(e),
            Ok(v) => extract_all_from(
                es.drop_first(),
                if v.len() > 0 {
                    insert_entry(acc, entry_key(opt_view(es[0].name), acc.len()), v)
                } else {
                    acc
                },
                r,
            ),
        }
    }
}

/// Every extractor that the run reaches can be evaluated.
pub open spec fn all_defined_from(es: Seq<Extractor>, r: ResponseView) -> bool
    decreases es.len(),
{
    es.len() == 0 || (extraction_defined(es[0], r) && (extraction_outcome(es[0], r) is Err
        || all_defined_from(es.drop_first(), r)))
}

/// Stores `v` under `k`.
fn insert_entry_exec(m: &mut Vec<(String, Vec<String>)>, k: String, v: Vec<String>)
    ensures
        entries_view(final(m)@) == insert_entry(entries_view(old(m)@), k@, strings_view(v@)),
{
    let ghost mv = entries_view(m@);
    proof {
        lemma_entry_index(mv, k@);
    }
    let mut i: usize = 0;
    while i < m.len()
        invariant
            mv == entries_view(m@),
            mv == entries_view(old(m)@),
            i <= m@.len(),
            forall|j: int| 0 <= j < i ==> mv[j].0 != k@,
            0 <= entry_index(mv, k@) <= mv.len(),
            entry_index(mv, k@) < mv.len() ==> mv[entry_index(mv, k@)].0 == k@,
            forall|j: int| 0 <= j < entry_index(mv, k@) ==> mv[j].0 != k@,
        decreases m@.len() - i,
    {
        if crate::text::str_eq(m[i].0.as_str(), k.as_str()) {
            assert(mv[i as int].0 == k@);
            assert(entry_index(mv, k@) == i);
            let ghost kv = (k@, strings_view(v@));
            m.set(i, (k, v));
            assert(entries_view(m@) =~= mv.update(i as int, kv));
            return;
        }
        i = i + 1;
    }
    assert(entry_index(mv, k@) == mv.len());
    let ghost kv = (k@, strings_view(v@));
    m.push((k, v));
    assert(entries_view(m@) =~= mv.push(kv));
}

impl ExtractorEngine {
    /// Runs one extractor on the response.
    pub fn extract_single(&mut self, e: &Extractor, response: &HttpResponse) -> (r: Result<ExtractionResult, ExtractError>)
        requires
            extraction_defined(*e, response@),
        ensures
            extraction_matches(r, *e, response@),
    {
        let t = e.extractor_type.as_str();
        if crate::text::str_eq(t, "regex") {
            self.extract_regex(e, response)
        } else if crate::text::str_eq(t, "kval") {
            self.extract_kval(e, response)
        } else if crate::text::str_eq(t, "xpath") {
            self.extract_xpath(e, response)
        } else if crate::text::str_eq(t, "json") {
            self.extract_json(e, response)
        } else if crate::text::str_eq(t, "dsl") {
            self.extract_dsl(e, response)
        } else {
            Err(ExtractError::UnsupportedType(e.extractor_type.clone()))
        }
    }

    /// Runs the extractors in order; each that finds something stores its
    /// values under its name (or `extractor_N`, `N` the number of entries so
    /// far), replacing what an earlier one stored under the same key. The
    /// first error stops the run.
    pub fn extract_all(&mut self, extractors: &[Extractor], response: &HttpResponse) -> (r: Result<Vec<(String, Vec<String>)>, ExtractError>)
        requires
            all_defined_from(extractors@, response@),
        ensures
            match r {
                Ok(m) => extract_all_from(extractors@, Seq::empty(), response@) == Ok::<Seq<(Seq<char>, Seq<Seq<char>>)>, ExtractErrorView>(entries_view(m@)),
                Err(err) => extract_all_from(extractors@, Seq::empty(), response@) == Err::<Seq<(Seq<char>, Seq<Seq<char>>)>, ExtractErrorView>(err@),
            },
    {
        let mut results: Vec<(String, Vec<String>)> = Vec::new();
        let ghost es = extractors@;
        let mut i: usize = 0;
        assert(es.skip(0) =~= es);
        assert(entries_view(results@) =~= Seq::<(Seq<char>, Seq<Seq<char>>)>::empty());
        while i < extractors.len()
            invariant
                es == extractors@,
                i <= es.len(),
                extract_all_from(es, Seq::empty(), response@) == extract_all_from(es.skip(i as int), entries_view(results@), response@),
                all_defined_from(es.skip(i as int), response@),
            decreases es.len() - i,
        {
            let ghost rest = es.skip(i as int);
            assert(rest[0] == extractors@[i as int]);
            assert(rest.drop_first() =~= es.skip(i + 1));
            let ghost before = entries_view(results@);
            match self.extract_single(&extractors[i], response) {
                Err(err) => {
                    return Err(err);
                },
                Ok(x) => {
                    if x.has_values() {
                        let n = results.len();
                        let key = match x.extractor_name {
                            Some(name) => name,
                            None => {
                                let mut kc = chars_of("extractor_");
                                let d = crate::text::decimal_chars(n as u64);
                                kc.extend_from_slice(d.as_slice());
                                string_of(kc.as_slice())
                            },
                        };
                        assert(key@ == entry_key(opt_view(extractors@[i as int].name), before.len()));
                        insert_entry_exec(&mut results, key, x.extracted_values);
                    }
                },
            }
            i = i + 1;
        }
        Ok(results)
    }

    /// Drops every compiled pattern.
    pub fn clear_cache(&mut self)
        ensures
            final(self).cache_size() == 0,
    {
        self.regex_cache.clear();
    }

    /// The number of compiled patterns held and the number the cache can
    /// hold before it grows.
    pub fn cache_stats(&self) -> (r: (usize, usize))
        ensures
            r.0 == self.cache_size(),
            r.1 >= r.0,
    {
        (self.regex_cache.len(), self.regex_cache.capacity())
    }
}

/// Extractors that can each be evaluated can be run in turn.
pub proof fn lemma_all_defined(es: Seq<Extractor>, r: ResponseView)
    requires
        forall|i: int| 0 <= i < es.len() ==> #[trigger] extraction_defined(es[i], r),
    ensures
        all_defined_from(es, r),
    decreases es.len(),
{
    if es.len() > 0 {
        assert(extraction_defined(es[0], r));
        assert forall|i: int| 0 <= i < es.drop_first().len() implies #[trigger] extraction_defined(es.drop_first()[i], r) by {
            assert(es.drop_first()[i] == es[i + 1]);
        }
        lemma_all_defined(es.drop_first(), r);
    }
}

impl ExtractorEngine {
    /// Whether the extractor can be evaluated on the response (see
    /// `extraction_defined`).
    pub fn extraction_defined_exec(&self, e: &Extractor, response: &HttpResponse) -> (b: bool)
        ensures
            b == extraction_defined(*e, response@),
    {
        if !crate::text::str_eq(e.extractor_type.as_str(), "json") {
            return true;
        }
        match &e.json {
            None => true,
            Some(paths) => {
                let text = self.get_search_text(e, response);
                match parse_json(text.as_str()) {
                    None => true,
                    Some(doc) => {
                        let mut i: usize = 0;
                        while i < paths.len()
                            invariant
                                i <= paths@.len(),
                                e.extractor_type@ == "json"@,
                                e.json == Some(*paths),
                                text@ == search_text(opt_view(e.part), response@),
                                json_document(text@) == Some(doc),
                                forall|k: int| 0 <= k < i ==> #[trigger] json_path_value(doc, paths@[k]@) is Some,
                            decreases paths@.len() - i,
                        {
                            if json_path_lookup(&doc, paths[i].as_str()).is_none() {
                                return false;
                            }
                            i = i + 1;
                        }
                        true
                    },
                }
            },
        }
    }

    /// Runs the extractors as `extract_all` does when every one of them can
    /// be evaluated; `None` otherwise.
    pub fn try_extract_all(&mut self, extractors: &[Extractor], response: &HttpResponse) -> (r: Option<Result<Vec<(String, Vec<String>)>, ExtractError>>)
        ensures
            r is None <==> exists|i: int| 0 <= i < extractors@.len() && !#[trigger] extraction_defined(extractors@[i], response@),
            match r {
                Some(Ok(m)) => extract_all_from(extractors@, Seq::empty(), response@) == Ok::<Seq<(Seq<char>, Seq<Seq<char>>)>, ExtractErrorView>(entries_view(m@)),
                Some(Err(err)) => extract_all_from(extractors@, Seq::empty(), response@) == Err::<Seq<(Seq<char>, Seq<Seq<char>>)>, ExtractErrorView>(err@),
                None => true,
            },
    {
        let mut i: usize = 0;
        while i < extractors.len()
            invariant
                i <= extractors@.len(),
                forall|k: int| 0 <= k < i ==> #[trigger] extraction_defined(extractors@[k], response@),
            decreases extractors@.len() - i,
        {
            if !self.extraction_defined_exec(&extractors[i], response) {
                return None;
            }
            i = i + 1;
        }
        proof {
            lemma_all_defined(extractors@, response@);
        }
        Some(self.extract_all(extractors, response))
    }
}

impl Default for ExtractorEngine {
    fn default() -> (e: Self)
        ensures
            e.cache_size() == 0,
    {
        ExtractorEngine::new()
    }
}

/// The extraction gave what `extraction_outcome` says, under the
/// extractor's name.
pub open spec fn extraction_matches(r: Result<ExtractionResult, ExtractError>, e: Extractor, resp: ResponseView) -> bool {
    match r {
        Ok(x) => x.extractor_name == e.name && extraction_outcome(e, resp) == Ok::<Seq<Seq<char>>, ExtractErrorView>(strings_view(x.extracted_values@)),
        Err(err) => extraction_outcome(e, resp) == Err::<Seq<Seq<char>>, ExtractErrorView>(err@),
    }
}

/// No key occurs twice.
pub open spec fn distinct_entry_keys(m: Seq<(Seq<char>, Seq<Seq<char>>)>) -> bool {
    forall|a: int, b: int| 0 <= a < m.len() && 0 <= b < m.len() && a != b ==> #[trigger] m[a].0 != #[trigger] m[b].0
}

proof fn lemma_insert_entry_distinct(m: Seq<(Seq<char>, Seq<Seq<char>>)>, k: Seq<char>, v: Seq<Seq<char>>)
    requires
        distinct_entry_keys(m),
    ensures
        distinct_entry_keys(insert_entry(m, k, v)),
{
    lemma_entry_index(m, k);
    let s = insert_entry(m, k, v);
    let i = entry_index(m, k);
    assert forall|a: int, b: int| 0 <= a < s.len() && 0 <= b < s.len() && a != b implies #[trigger] s[a].0 != #[trigger] s[b].0 by {
        if i < m.len() {
            if a != i && b != i {
                assert(m[a].0 != m[b].0);
            } else if a == i {
                assert(m[b].0 != m[i].0);
            } else {
                assert(m[a].0 != m[i].0);
            }
        } else {
            if a < m.len() && b < m.len() {
                assert(m[a].0 != m[b].0);
            } else if a == m.len() {
                assert(m[b].0 != k);
            } else {
                assert(m[a].0 != k);
            }
        }
    }
}

/// The values found by a run of extractors are stored under distinct keys:
/// a later extractor under the same key replaces the earlier values.
pub proof fn law_extracted_keys_distinct(es: Seq<Extractor>, acc: Seq<(Seq<char>, Seq<Seq<char>>)>, r: ResponseView)
    requires
        distinct_entry_keys(acc),
    ensures
        extract_all_from(es, acc, r) matches Ok(m) ==> distinct_entry_keys(m),
    decreases es.len(),
{
    if es.len() > 0 {
        match extraction_outcome(es[0], r) {
            Err(_) => {},
            Ok(v) => {
                if v.len() > 0 {
                    lemma_insert_entry_distinct(acc, entry_key(opt_view(es[0].name), acc.len()), v);
                    law_extracted_keys_distinct(
                        es.drop_first(),
                        insert_entry(acc, entry_key(opt_view(es[0].name), acc.len()), v),
                        r,
                    );
                } else {
                    law_extracted_keys_distinct(es.drop_first(), acc, r);
                }
            },
        }
    }
}

/// An extractor that finds nothing stores nothing: only extractors with
/// values get an entry.
pub proof fn law_empty_extraction_stores_nothing(e: Extractor, acc: Seq<(Seq<char>, Seq<Seq<char>>)>, r: ResponseView)
    requires
        extraction_outcome(e, r) == Ok::<Seq<Seq<char>>, ExtractErrorView>(Seq::empty()),
    ensures
        extract_all_from(seq![e], acc, r) == Ok::<Seq<(Seq<char>, Seq<Seq<char>>)>, ExtractErrorView>(acc),
{
    assert(seq![e].drop_first() =~= Seq::<Extractor>::empty());
    assert(seq![e][0] == e);
    assert(extract_all_from(Seq::<Extractor>::empty(), acc, r) == Ok::<Seq<(Seq<char>, Seq<Seq<char>>)>, ExtractErrorView>(acc));
}

/// An extractor that searches the headers finds the same on responses with
/// the same headers, whatever their bodies (DSL extractors name their
/// variables themselves and read no part).
pub proof fn law_header_part_ignores_body(e: Extractor, r1: ResponseView, r2: ResponseView)
    requires
        e.part matches Some(p) && p@ == "header"@,
        e.extractor_type@ != "dsl"@,
        r1.headers == r2.headers,
    ensures
        extraction_outcome(e, r1) == extraction_outcome(e, r2),
{
    let part = opt_view(e.part);
    assert(part == Some("header"@));
    assert(search_text(part, r1) == headers_text(r1.headers));
    assert(search_text(part, r2) == headers_text(r2.headers));
    if let Some(ks) = e.kval {
        let k = strings_view(ks@);
        assert(k.map_values(|x: Seq<char>| kval_found(x, part, r1)) =~= k.map_values(
            |x: Seq<char>| kval_found(x, part, r2),
        ));
    }
}

/// A regex or JSON extractor that searches the headers finds what the same
/// extractor finds searching the body of a response whose body is the
/// header text.
pub proof fn law_header_part_searches_header_text(e: Extractor, on_body: Extractor, r: ResponseView)
    requires
        e.part matches Some(p) && p@ == "header"@,
        on_body.part matches Some(b) && b@ == "body"@,
        on_body == (Extractor { part: on_body.part, ..e }),
        e.extractor_type@ == "regex"@ || e.extractor_type@ == "json"@,
    ensures
        extraction_outcome(e, r) == extraction_outcome(
            on_body,
            ResponseView { body: headers_text(r.headers), ..r },
        ),
{
    reveal_strlit("header");
    reveal_strlit("body");
    assert("header"@.len() == 6 && "body"@.len() == 4);
    let r2 = ResponseView { body: headers_text(r.headers), ..r };
    assert(search_text(opt_view(e.part), r) == headers_text(r.headers));
    assert(opt_view(on_body.part) == Some("body"@));
    assert(search_text(opt_view(on_body.part), r2) == r2.body);
    assert(on_body.extractor_type == e.extractor_type && on_body.regex == e.regex);
    assert(on_body.group == e.group && on_body.json == e.json && on_body.name == e.name);
    let t = e.extractor_type@;
    if t == "regex"@ {
        assert(extraction_outcome(e, r) == match e.regex {
            None => Err(ExtractErrorView::MissingPatterns),
            Some(ps) => match regex_values(strings_view(ps@), headers_text(r.headers), e.group) {
                Ok(v) => Ok(v),
                Err(p) => Err(ExtractErrorView::InvalidRegex(p)),
            },
        });
    } else {
        assert(t == "json"@);
        reveal_strlit("regex");
        reveal_strlit("kval");
        reveal_strlit("xpath");
        reveal_strlit("json");
        assert("json"@.len() == 4 && "json"@[0] == 'j');
        assert("regex"@.len() == 5 && "kval"@.len() == 4 && "kval"@[0] == 'k' && "xpath"@.len() == 5);
        assert(extraction_outcome(e, r) == match e.json {
            None => Err::<Seq<Seq<char>>, ExtractErrorView>(ExtractErrorView::MissingPaths),
            Some(ps) => Ok(json_values(json_document(headers_text(r.headers)), strings_view(ps@))),
        });
    }
}

/// An extractor that searches the body finds the same on responses with the
/// same body, whatever their headers (DSL extractors name their variables
/// themselves and read no part).
pub proof fn law_body_part_ignores_headers(e: Extractor, r1: ResponseView, r2: ResponseView)
    requires
        e.part matches Some(p) && p@ == "body"@,
        e.extractor_type@ != "dsl"@,
        r1.body == r2.body,
    ensures
        extraction_outcome(e, r1) == extraction_outcome(e, r2),
{
    reveal_strlit("header");
    reveal_strlit("body");
    assert("header"@.len() == 6 && "body"@.len() == 4);
    let part = opt_view(e.part);
    assert(part == Some("body"@));
    assert(part != Some("header"@));
    assert(search_text(part, r1) == r1.body);
    assert(search_text(part, r2) == r2.body);
    if let Some(ks) = e.kval {
        let k = strings_view(ks@);
        assert(k.map_values(|x: Seq<char>| kval_found(x, part, r1)) =~= k.map_values(
            |x: Seq<char>| kval_found(x, part, r2),
        ));
    }
}

} // verus!
