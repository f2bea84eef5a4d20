//! What the matchers and extractors ask of the `regex` crate, and a cache of
//! compiled patterns.

use vstd::prelude::*;

verus! {

/// `regex::Regex::new` accepts the pattern.
pub uninterp spec fn regex_valid(pattern: Seq<char>) -> bool;

/// `Regex::is_match` of the compiled pattern on the text.
pub uninterp spec fn regex_matches(pattern: Seq<char>, text: Seq<char>) -> bool;

/// `Regex::captures_iter` of the compiled pattern on the text: one row per
/// match, each row holding every group (group 0 first), absent where the
/// group did not take part.
pub uninterp spec fn regex_captures(pattern: Seq<char>, text: Seq<char>) -> Seq<Seq<Option<Seq<char>>>>;

/// Optional strings as optional character sequences.
pub open spec fn opt_strings(v: Seq<Option<String>>) -> Seq<Option<Seq<char>>> {
    v.map_values(|g: Option<String>| crate::scanner::opt_view(g))
}

#[verifier::external_type_specification]
#[verifier::external_body]
pub struct ExRegex(regex::Regex);

#[verifier::external_type_specification]
#[verifier::external_body]
pub struct ExRegexError(regex::Error);

/// A compiled pattern together with the text it was compiled from.
#[derive(Debug)]
pub struct CompiledRegex {
    pattern: String,
    re: regex::Regex,
}

impl CompiledRegex {
    /// The pattern text.
    pub closed spec fn pattern(&self) -> Seq<char> {
        self.pattern@
    }

    /// The pattern text.
    pub fn source(&self) -> (s: &String)
        ensures
            s@ == self.pattern(),
    {
        &self.pattern
    }
}

/// Calls `regex::Regex::new(pattern)`. The contract claims that it succeeds
/// exactly when `regex_valid` holds of the pattern, and that the compiled value
/// keeps the pattern text beside it.
#[verifier::external_body]
pub(crate) fn compile_regex(pattern: &str) -> (r: Result<CompiledRegex, regex::Error>)
    ensures
        r is Ok <==> regex_valid(pattern@),
        r matches Ok(c) ==> c.pattern() == pattern@,
{
    match regex::Regex::new(pattern) {
        Ok(re) => Ok(CompiledRegex { pattern: pattern.to_string(), re }),
        Err(e) => Err(e),
    }
}

/// Calls `Regex::is_match`. A `CompiledRegex` is only made by
/// `compile_regex`, so its regex is the one compiled from its pattern; the
/// contract claims that the result is `regex_matches` of that pattern and text.
#[verifier::external_body]
pub(crate) fn regex_is_match(c: &CompiledRegex, text: &str) -> (b: bool)
    ensures
        b == regex_matches(c.pattern(), text@),
{
    c.re.is_match(text)
}

/// Calls `Regex::captures_iter` and reads every group of every match with
/// `Captures::iter`. The contract claims that the rows are `regex_captures`
/// of the pattern and text, and what the crate documents of each row: it is
/// never empty and group 0 is always present.
#[verifier::external_body]
pub(crate) fn regex_captures_all(c: &CompiledRegex, text: &str) -> (rows: Vec<Vec<Option<String>>>)
    ensures
        rows@.map_values(|row: Vec<Option<String>>| opt_strings(row@)) == regex_captures(c.pattern(), text@),
        forall|i: int| 0 <= i < rows@.len() ==> #[trigger] rows@[i]@.len() > 0 && rows@[i]@[0] is Some,
{
    let mut rows = Vec::new();
    for caps in c.re.captures_iter(text) {
        rows.push(caps.iter().map(|m| m.map(|m| m.as_str().to_string())).collect());
    }
    rows
}

/// Calls std's `Vec::capacity`, which is never below the length.
#[verifier::external_body]
fn vec_capacity(v: &Vec<CompiledRegex>) -> (n: usize)
    ensures
        n >= v@.len(),
{
    v.capacity()
}

/// The compiled patterns seen so far.
#[derive(Debug)]
pub struct RegexCache {
    entries: Vec<CompiledRegex>,
}

impl RegexCache {
    #[verifier::type_invariant]
    closed spec fn inv(self) -> bool {
        forall|i: int| 0 <= i < self.entries@.len() ==> regex_valid(#[trigger] self.entries@[i].pattern())
    }

    /// Number of compiled patterns held.
    pub closed spec fn size(&self) -> nat {
        self.entries@.len()
    }

    pub fn new() -> (c: Self)
        ensures
            c.size() == 0,
    {
        RegexCache { entries: Vec::new() }
    }

    /// Number of compiled patterns held.
    pub fn len(&self) -> (n: usize)
        ensures
            n == self.size(),
    {
        self.entries.len()
    }

    /// Number of patterns the cache can hold before it grows.
    pub fn capacity(&self) -> (n: usize)
        ensures
            n >= self.size(),
    {
        vec_capacity(&self.entries)
    }

    /// Drops every compiled pattern.
    pub fn clear(&mut self)
        ensures
            final(self).size() == 0,
    {
        self.entries = Vec::new();
    }

    /// The compiled form of `pattern`, compiled now unless held already.
    pub fn get_or_compile(&mut self, pattern: &str) -> (r: Result<&CompiledRegex, regex::Error>)
        ensures
            r is Ok <==> regex_valid(pattern@),
            r matches Ok(c) ==> c.pattern() == pattern@,
    {
        proof {
            use_type_invariant(&*self);
        }
        let mut i: usize = 0;
        while i < self.entries.len()
            invariant
                i <= self.entries@.len(),
                forall|k: int| 0 <= k < self.entries@.len() ==> regex_valid(#[trigger] self.entries@[k].pattern()),
            decreases self.entries@.len() - i,
        {
            if crate::text::str_eq(self.entries[i].source().as_str(), pattern) {
                return Ok(&self.entries[i]);
            }
            i = i + 1;
        }
        match compile_regex(pattern) {
            Ok(c) => {
                let mut entries: Vec<CompiledRegex> = Vec::new();
                std::mem::swap(&mut entries, &mut self.entries);
                entries.push(c);
                self.entries = entries;
                let n = self.entries.len();
                Ok(&self.entries[n - 1])
            },
            Err(e) => Err(e),
        }
    }
}

} // verus!
