//! Response matchers: status codes, body sizes, words, regular expressions,
//! binary patterns and DSL expressions, combined with `and` / `or`.

use vstd::prelude::*;
use crate::dsl::{dsl_eval, eval_dsl};
use crate::regex_support::{regex_is_match, regex_matches, regex_valid, RegexCache};
use crate::scanner::opt_view;
use crate::scanner::response::{headers_text, HttpResponse, ResponseView};
use crate::template::Matcher;
use crate::text::{byte_len, chars_of, contains, contains_exec, decimal, i64_to_string, lowercase, replace_all, replace_exec, signed_decimal, starts_with, starts_with_exec, string_of, u64_to_string, utf8_len};

verus! {

/// The abstract content of a `MatchResult`.
pub struct MatchView {
    pub matched: bool,
    pub matcher_name: Option<Seq<char>>,
    pub matched_values: Seq<Seq<char>>,
}

/// The outcome of a matcher: whether it matched, its name, and what matched.
#[derive(Debug)]
pub struct MatchResult {
    pub matched: bool,
    pub matcher_name: Option<String>,
    pub matched_values: Vec<String>,
}

/// Strings as character sequences.
pub open spec fn strings_view(v: Seq<String>) -> Seq<Seq<char>> {
    v.map_values(|s: String| s@)
}

impl View for MatchResult {
    type V = MatchView;

    open spec fn view(&self) -> MatchView {
        MatchView {
            matched: self.matched,
            matcher_name: opt_view(self.matcher_name),
            matched_values: strings_view(self.matched_values@),
        }
    }
}

/// No match.
pub open spec fn no_match() -> MatchView {
    MatchView { matched: false, matcher_name: None, matched_values: Seq::empty() }
}

/// A match under `name` with the matched values.
pub open spec fn match_with(name: Option<Seq<char>>, values: Seq<Seq<char>>) -> MatchView {
    MatchView { matched: true, matcher_name: name, matched_values: values }
}

impl MatchResult {
    /// A match with no values.
    pub fn matched(name: Option<String>) -> (r: Self)
        ensures
            r@ == match_with(opt_view(name), Seq::empty()),
    {
        let r = MatchResult { matched: true, matcher_name: name, matched_values: Vec::new() };
        assert(r@.matched_values =~= Seq::<Seq<char>>::empty());
        r
    }

    /// A match with values.
    pub fn matched_with_values(name: Option<String>, values: Vec<String>) -> (r: Self)
        ensures
            r@ == match_with(opt_view(name), strings_view(values@)),
    {
        MatchResult { matched: true, matcher_name: name, matched_values: values }
    }

    /// No match.
    pub fn not_matched() -> (r: Self)
        ensures
            r@ == no_match(),
    {
        let r = MatchResult { matched: false, matcher_name: None, matched_values: Vec::new() };
        assert(r@.matched_values =~= Seq::<Seq<char>>::empty());
        r
    }
}

/// Why a matcher could not be evaluated.
#[derive(Debug, Clone, PartialEq, Eq)]
pub enum MatchError {
    UnsupportedType(String),
    MissingStatus,
    MissingSizes,
    MissingWords,
    MissingPatterns,
    MissingBinary,
    MissingDsl,
    InvalidRegex(String),
}

/// The abstract content of a `MatchError`.
pub enum MatchErrorView {
    UnsupportedType(Seq<char>),
    MissingStatus,
    MissingSizes,
    MissingWords,
    MissingPatterns,
    MissingBinary,
    MissingDsl,
    InvalidRegex(Seq<char>),
}

impl View for MatchError {
    type V = MatchErrorView;

    open spec fn view(&self) -> MatchErrorView {
        match self {
            MatchError::UnsupportedType(t) => MatchErrorView::UnsupportedType(t@),
            MatchError::MissingStatus => MatchErrorView::MissingStatus,
            MatchError::MissingSizes => MatchErrorView::MissingSizes,
            MatchError::MissingWords => MatchErrorView::MissingWords,
            MatchError::MissingPatterns => MatchErrorView::MissingPatterns,
            MatchError::MissingBinary => MatchErrorView::MissingBinary,
            MatchError::MissingDsl => MatchErrorView::MissingDsl,
            MatchError::InvalidRegex(p) => MatchErrorView::InvalidRegex(p@),
        }
    }
}

/// The text of the response that a matcher part names: the headers, the
/// body (the default), or the whole response; another part beginning with
/// `header` means the headers, any other the body.
pub open spec fn part_text(part: Option<Seq<char>>, r: ResponseView) -> Seq<char> {
    match part {
        None => r.body,
        Some(p) => if p == "header"@ || p == "headers"@ {
            headers_text(r.headers)
        } else if p == "body"@ {
            r.body
        } else if p == "all"@ || p == "raw"@ || p == "response"@ {
            headers_text(r.headers) + "\n\n"@ + r.body
        } else if starts_with(p, "header"@) {
            headers_text(r.headers)
        } else {
            r.body
        },
    }
}

/// Whether the inner condition holds: with `and` all items matched, with
/// anything else (`or` by default) at least one.
pub open spec fn condition_met(cond: Option<String>, hits: nat, total: nat) -> bool {
    let c = match cond {
        Some(c) => c@,
        None => "or"@,
    };
    if c == "and"@ {
        hits == total
    } else {
        hits > 0
    }
}

/// The outcome for a matcher named `name` whose matched items are `hits`.
pub open spec fn decide(name: Option<String>, hits: Seq<Seq<char>>, matched: bool) -> MatchView {
    if matched {
        match_with(opt_view(name), hits)
    } else {
        no_match()
    }
}

/// The words found in `text`, in order (lowercased comparison when `ci`).
pub open spec fn word_hits(words: Seq<Seq<char>>, text: Seq<char>, ci: bool) -> Seq<Seq<char>>
    decreases words.len(),
{
    if words.len() == 0 {
        Seq::empty()
    } else {
        let rest = word_hits(words.drop_last(), text, ci);
        let w = words.last();
        let t = if ci {
            lowercase(text)
        } else {
            text
        };
        let wc = if ci {
            lowercase(w)
        } else {
            w
        };
        if contains(t, wc) {
            rest.push(w)
        } else {
            rest
        }
    }
}

/// Compared without letter case, a word is found exactly when the
/// lowercased text contains the lowercased word.
pub proof fn law_case_insensitive_word_hit(w: Seq<char>, text: Seq<char>)
    ensures
        word_hits(seq![w], text, true) == (if contains(lowercase(text), lowercase(w)) {
            seq![w]
        } else {
            Seq::<Seq<char>>::empty()
        }),
{
    assert(seq![w].drop_last() =~= Seq::<Seq<char>>::empty());
    assert(seq![w].last() == w);
    assert(word_hits(Seq::<Seq<char>>::empty(), text, true) == Seq::<Seq<char>>::empty());
    assert(Seq::<Seq<char>>::empty().push(w) =~= seq![w]);
}

/// Compared with letter case, a word is found exactly when the text
/// contains it.
pub proof fn law_case_sensitive_word_hit(w: Seq<char>, text: Seq<char>)
    ensures
        word_hits(seq![w], text, false) == (if contains(text, w) {
            seq![w]
        } else {
            Seq::<Seq<char>>::empty()
        }),
{
    assert(seq![w].drop_last() =~= Seq::<Seq<char>>::empty());
    assert(seq![w].last() == w);
    assert(word_hits(Seq::<Seq<char>>::empty(), text, false) == Seq::<Seq<char>>::empty());
    assert(Seq::<Seq<char>>::empty().push(w) =~= seq![w]);
}

/// Compared without letter case, how many words are found does not change
/// when the letter case of the words or of the text changes.
pub proof fn law_case_insensitive_words_ignore_case(ws1: Seq<Seq<char>>, ws2: Seq<Seq<char>>, t1: Seq<char>, t2: Seq<char>)
    requires
        ws1.len() == ws2.len(),
        forall|i: int| 0 <= i < ws1.len() ==> lowercase(#[trigger] ws1[i]) == lowercase(ws2[i]),
        lowercase(t1) == lowercase(t2),
    ensures
        word_hits(ws1, t1, true).len() == word_hits(ws2, t2, true).len(),
    decreases ws1.len(),
{
    if ws1.len() > 0 {
        let d1 = ws1.drop_last();
        let d2 = ws2.drop_last();
        assert forall|i: int| 0 <= i < d1.len() implies lowercase(#[trigger] d1[i]) == lowercase(d2[i]) by {
            assert(d1[i] == ws1[i] && d2[i] == ws2[i]);
        }
        law_case_insensitive_words_ignore_case(d1, d2, t1, t2);
        assert(lowercase(ws1.last()) == lowercase(ws2.last()));
    }
}

/// A case-insensitive word matcher reaches the same verdict on words and
/// texts that differ only in letter case.
pub proof fn law_word_matcher_ignores_letter_case(m: Matcher, words: Vec<String>, r1: ResponseView, r2: ResponseView)
    requires
        m.matcher_type@ == "word"@,
        m.case_insensitive == Some(true),
        m.words matches Some(w) && w@.len() == words@.len() && forall|i: int|
            0 <= i < w@.len() ==> lowercase(#[trigger] w@[i]@) == lowercase(words@[i]@),
        lowercase(part_text(opt_view(m.part), r1)) == lowercase(part_text(opt_view(m.part), r2)),
    ensures
        plain_outcome(m, r1) matches Ok(v1) && plain_outcome(Matcher { words: Some(words), ..m }, r2) matches Ok(
            v2,
        ) && v1.matched == v2.matched,
{
    reveal_strlit("word");
    reveal_strlit("status");
    reveal_strlit("size");
    assert("word"@.len() == 4 && "word"@[0] == 'w');
    assert("status"@.len() == 6);
    assert("size"@.len() == 4 && "size"@[0] == 's');
    let w = m.words->Some_0;
    let ws1 = strings_view(w@);
    let ws2 = strings_view(words@);
    assert forall|i: int| 0 <= i < ws1.len() implies lowercase(#[trigger] ws1[i]) == lowercase(ws2[i]) by {
        assert(lowercase(w@[i]@) == lowercase(words@[i]@));
    }
    law_case_insensitive_words_ignore_case(
        ws1,
        ws2,
        part_text(opt_view(m.part), r1),
        part_text(opt_view(m.part), r2),
    );
}

/// The patterns that match `text`, in order, or the first invalid pattern.
pub open spec fn regex_hits(ps: Seq<Seq<char>>, text: Seq<char>) -> Result<Seq<Seq<char>>, Seq<char>>
    decreases ps.len(),
{
    if ps.len() == 0 {
        Ok(Seq::empty())
    } else if !regex_valid(ps[0]) {
        Err(ps[0])
    } else {
        match regex_hits(ps.drop_first(), text) {
            Ok(rest) => Ok(
                if regex_matches(ps[0], text) {
                    seq![ps[0]] + rest
                } else {
                    rest
                },
            ),
            Err(e) => Err(e),
        }
    }
}

/// Value of an ASCII hex digit.
pub open spec fn hex_digit_value(b: u8) -> Option<u8> {
    if 48 <= b <= 57 {
        Some((b - 48) as u8)
    } else if 65 <= b <= 70 {
        Some((b - 55) as u8)
    } else if 97 <= b <= 102 {
        Some((b - 87) as u8)
    } else {
        None
    }
}

/// `hex::decode`: pairs of hex digits (either case) to bytes; none for an
/// odd length or another character.
pub open spec fn hex_decoded(b: Seq<u8>) -> Option<Seq<u8>>
    decreases b.len(),
{
    if b.len() % 2 != 0 {
        None
    } else if b.len() == 0 {
        Some(Seq::empty())
    } else {
        match (hex_digit_value(b[0]), hex_digit_value(b[1]), hex_decoded(b.skip(2))) {
            (Some(h), Some(l), Some(rest)) => Some(seq![(h * 16 + l) as u8] + rest),
            _ => None,
        }
    }
}

#[verifier::external_type_specification]
#[verifier::external_body]
pub struct ExFromHexError(hex::FromHexError);

/// Calls `hex::decode` on the text's bytes. The contract claims what the
/// crate's source shows: the result is `hex_decoded` of those bytes.
#[verifier::external_body]
fn hex_decode(s: &str) -> (r: Result<Vec<u8>, hex::FromHexError>)
    ensures
        match r {
            Ok(v) => hex_decoded(vstd::utf8::encode_utf8(s@)) == Some(v@),
            Err(_) => hex_decoded(vstd::utf8::encode_utf8(s@)) is None,
        },
{
    hex::decode(s)
}

/// `n` occurs in `h` as a contiguous run of bytes.
pub open spec fn bytes_contain(h: Seq<u8>, n: Seq<u8>) -> bool {
    exists|i: int| 0 <= i && i + n.len() <= h.len() && #[trigger] h.subrange(i, i + n.len()) == n
}

/// The pattern decoded from hex once its spaces are removed.
pub open spec fn binary_needle(p: Seq<char>) -> Option<Seq<u8>> {
    hex_decoded(vstd::utf8::encode_utf8(replace_all(p, " "@, Seq::empty())))
}

/// The binary patterns found in `body`, in order.
pub open spec fn binary_hits(ps: Seq<Seq<char>>, body: Seq<u8>) -> Seq<Seq<char>>
    decreases ps.len(),
{
    if ps.len() == 0 {
        Seq::empty()
    } else {
        let rest = binary_hits(ps.drop_last(), body);
        let p = ps.last();
        if binary_needle(p) matches Some(n) && n.len() > 0 && bytes_contain(body, n) {
            rest.push(p)
        } else {
            rest
        }
    }
}

/// The DSL expressions that hold of the response, in order.
pub open spec fn dsl_hits(es: Seq<Seq<char>>, r: ResponseView) -> Seq<Seq<char>>
    decreases es.len(),
{
    if es.len() == 0 {
        Seq::empty()
    } else {
        let rest = dsl_hits(es.drop_last(), r);
        if dsl_eval(es.last(), r) {
            rest.push(es.last())
        } else {
            rest
        }
    }
}

/// The outcome of one matcher before negation.
pub open spec fn plain_outcome(m: Matcher, r: ResponseView) -> Result<MatchView, MatchErrorView> {
    let t = m.matcher_type@;
    if t == "status"@ {
        match m.status {
            None => Err(MatchErrorView::MissingStatus),
            Some(codes) => Ok(
                if codes@.contains(r.status) {
                    match_with(opt_view(m.name), seq![decimal(r.status as nat)])
                } else {
                    no_match()
                },
            ),
        }
    } else if t == "size"@ {
        match m.size {
            None => Err(MatchErrorView::MissingSizes),
            Some(sizes) => {
                let n = ((utf8_len(r.body) as usize) as i64);
                Ok(
                    if sizes@.contains(n) {
                        match_with(opt_view(m.name), seq![signed_decimal(n as int)])
                    } else {
                        no_match()
                    },
                )
            },
        }
    } else if t == "word"@ || t == "words"@ {
        match m.words {
            None => Err(MatchErrorView::MissingWords),
            Some(words) => {
                let hits = word_hits(
                    strings_view(words@),
                    part_text(opt_view(m.part), r),
                    m.case_insensitive == Some(true),
                );
                Ok(decide(m.name, hits, condition_met(m.condition, hits.len(), words@.len())))
            },
        }
    } else if t == "regex"@ {
        match m.regex {
            None => Err(MatchErrorView::MissingPatterns),
            Some(ps) => match regex_hits(strings_view(ps@), part_text(opt_view(m.part), r)) {
                Err(p) => Err(MatchErrorView::InvalidRegex(p)),
                Ok(hits) => Ok(decide(m.name, hits, condition_met(m.condition, hits.len(), ps@.len()))),
            },
        }
    } else if t == "binary"@ {
        match m.binary {
            None => Err(MatchErrorView::MissingBinary),
            Some(ps) => {
                let hits = binary_hits(strings_view(ps@), vstd::utf8::encode_utf8(r.body));
                Ok(decide(m.name, hits, hits.len() > 0))
            },
        }
    } else if t == "dsl"@ {
        match m.dsl {
            None => Err(MatchErrorView::MissingDsl),
            Some(es) => {
                let hits = dsl_hits(strings_view(es@), r);
                Ok(decide(m.name, hits, condition_met(m.condition, hits.len(), es@.len())))
            },
        }
    } else if t == "xpath"@ {
        Ok(no_match())
    } else {
        Err(MatchErrorView::UnsupportedType(t))
    }
}

/// The outcome of one matcher: its plain outcome, the verdict inverted when
/// the matcher is negative.
pub open spec fn matcher_outcome(m: Matcher, r: ResponseView) -> Result<MatchView, MatchErrorView> {
    match plain_outcome(m, r) {
        Ok(v) => Ok(
            if m.negative == Some(true) {
                MatchView { matched: !v.matched, ..v }
            } else {
                v
            },
        ),
        Err(e) => Err(e),
    }
}

/// The outcomes of all matchers in order, or the first error.
pub open spec fn all_outcomes(ms: Seq<Matcher>, r: ResponseView) -> Result<Seq<MatchView>, MatchErrorView>
    decreases ms.len(),
{
    if ms.len() == 0 {
        Ok(Seq::empty())
    } else {
        match matcher_outcome(ms[0], r) {
            Err(e) => Err(e),
            Ok(v) => match all_outcomes(ms.drop_first(), r) {
                Ok(rest) => Ok(seq![v] + rest),
                Err(e) => Err(e),
            },
        }
    }
}

/// Every outcome matched.
pub open spec fn all_matched(vs: Seq<MatchView>) -> bool {
    forall|i: int| 0 <= i < vs.len() ==> #[trigger] vs[i].matched
}

/// Some outcome matched.
pub open spec fn any_matched(vs: Seq<MatchView>) -> bool {
    exists|i: int| 0 <= i < vs.len() && #[trigger] vs[i].matched
}

/// The first outcome that matched.
pub open spec fn first_matched(vs: Seq<MatchView>) -> MatchView
    decreases vs.len(),
{
    if vs.len() == 0 {
        no_match()
    } else if vs[0].matched {
        vs[0]
    } else {
        first_matched(vs.drop_first())
    }
}

/// The combined outcome of a request's matchers under its condition: with
/// `and` all must match, otherwise one; the result is the first matching
/// outcome, or no match.
pub open spec fn matchers_outcome(ms: Seq<Matcher>, cond: Seq<char>, r: ResponseView) -> Result<MatchView, MatchErrorView> {
    if ms.len() == 0 {
        Ok(no_match())
    } else {
        match all_outcomes(ms, r) {
            Err(e) => Err(e),
            Ok(vs) => {
                let overall = if cond == "and"@ {
                    all_matched(vs)
                } else {
                    any_matched(vs)
                };
                Ok(
                    if overall {
                        first_matched(vs)
                    } else {
                        no_match()
                    },
                )
            },
        }
    }
}

/// The first matching outcome matched, where any did.
pub proof fn lemma_first_matched(vs: Seq<MatchView>)
    requires
        any_matched(vs),
    ensures
        first_matched(vs).matched,
    decreases vs.len(),
{
    if !vs[0].matched {
        let k = choose|k: int| 0 <= k < vs.len() && #[trigger] vs[k].matched;
        assert(vs.drop_first()[k - 1] == vs[k]);
        lemma_first_matched(vs.drop_first());
    }
}

/// A negative matcher gives the opposite verdict of the same matcher
/// without negation, and the same error where there is one.
pub proof fn law_negative_inverts(m: Matcher, r: ResponseView)
    requires
        m.negative == Some(true),
    ensures
        match (matcher_outcome(m, r), matcher_outcome(Matcher { negative: None, ..m }, r)) {
            (Ok(a), Ok(b)) => a.matched == !b.matched,
            (Err(a), Err(b)) => a == b,
            _ => false,
        },
{
    assert(plain_outcome(Matcher { negative: None, ..m }, r) == plain_outcome(m, r));
}

/// Under `and`, a request's matchers match exactly when there is at least
/// one matcher and every one of them matches.
pub proof fn law_and_needs_every_matcher(ms: Seq<Matcher>, r: ResponseView)
    ensures
        matchers_outcome(ms, "and"@, r) matches Ok(v) ==> (v.matched <==> (ms.len() > 0
            && (all_outcomes(ms, r) matches Ok(vs) && all_matched(vs)))),
{
    if ms.len() > 0 {
        match all_outcomes(ms, r) {
            Ok(vs) => {
                lemma_all_outcomes_len(ms, r);
                if all_matched(vs) {
                    assert(vs[0].matched);
                    lemma_first_matched(vs);
                }
            },
            Err(_) => {},
        }
    }
}

/// Under `or` (or any condition other than `and`), a request's matchers
/// match exactly when one of them matches.
pub proof fn law_or_needs_one_matcher(ms: Seq<Matcher>, cond: Seq<char>, r: ResponseView)
    requires
        cond != "and"@,
    ensures
        matchers_outcome(ms, cond, r) matches Ok(v) ==> (v.matched <==> (all_outcomes(ms, r) matches Ok(vs)
            && any_matched(vs))),
{
    if ms.len() > 0 {
        match all_outcomes(ms, r) {
            Ok(vs) => {
                if any_matched(vs) {
                    lemma_first_matched(vs);
                }
            },
            Err(_) => {},
        }
    } else {
        assert(all_outcomes(ms, r) == Ok::<Seq<MatchView>, MatchErrorView>(Seq::empty()));
    }
}

/// There is one outcome per matcher.
pub proof fn lemma_all_outcomes_len(ms: Seq<Matcher>, r: ResponseView)
    ensures
        all_outcomes(ms, r) matches Ok(vs) ==> vs.len() == ms.len(),
    decreases ms.len(),
{
    if ms.len() > 0 {
        lemma_all_outcomes_len(ms.drop_first(), r);
    }
}

} // verus!

verus! {

/// The abstract content of a matcher outcome.
pub open spec fn outcome_view(r: Result<MatchResult, MatchError>) -> Result<MatchView, MatchErrorView> {
    match r {
        Ok(v) => Ok(v@),
        Err(e) => Err(e@),
    }
}

/// `acc` put before the items of `r`, when `r` holds items.
pub open spec fn prepend_ok<T, E>(acc: Seq<T>, r: Result<Seq<T>, E>) -> Result<Seq<T>, E> {
    match r {
        Ok(rest) => Ok(acc + rest),
        Err(e) => Err(e),
    }
}

/// Evaluates the matchers of template requests against responses, keeping
/// compiled regular expressions between calls.
#[derive(Debug)]
pub struct MatcherEngine {
    regex_cache: RegexCache,
}

fn bytes_contain_exec(h: &[u8], n: &[u8]) -> (b: bool)
    ensures
        b == bytes_contain(h@, n@),
{
    if n.len() > h.len() {
        return false;
    }
    let last = h.len() - n.len();
    let mut i: usize = 0;
    loop
        invariant
            last == h@.len() - n@.len(),
            h@.len() == h.len(),
            i <= last,
            forall|j: int| 0 <= j < i ==> #[trigger] h@.subrange(j, j + n@.len()) != n@,
        decreases last - i,
    {
        let mut k: usize = 0;
        let mut same = true;
        while k < n.len()
            invariant
                i + n@.len() <= h@.len(),
                h@.len() == h.len(),
                k <= n@.len(),
                same == forall|m: int| 0 <= m < k ==> h@[i + m] == n@[m],
            decreases n@.len() - k,
        {
            if h[i + k] != n[k] {
                same = false;
            }
            k = k + 1;
        }
        if same {
            assert(h@.subrange(i as int, i + n@.len()) =~= n@);
            return true;
        } else {
            assert(h@.subrange(i as int, i + n@.len()) != n@) by {
                let m = choose|m: int| 0 <= m < n@.len() && h@[i + m] != n@[m];
                assert(h@.subrange(i as int, i + n@.len())[m] != n@[m]);
            }
        }
        if i == last {
            return false;
        }
        i = i + 1;
    }
}

impl MatcherEngine {
    /// Number of compiled patterns held.
    pub closed spec fn cache_size(&self) -> nat {
        self.regex_cache.size()
    }

    /// An engine with no compiled patterns.
    pub fn new() -> (e: Self)
        ensures
            e.cache_size() == 0,
    {
        MatcherEngine { regex_cache: RegexCache::new() }
    }

    /// Evaluates all matchers against the response and combines them under
    /// `condition` (`and`: all must match; anything else: one must). The
    /// first error stops the evaluation.
    pub fn evaluate_matchers(&mut self, matchers: &[Matcher], condition: &str, response: &HttpResponse) -> (r: Result<MatchResult, MatchError>)
        ensures
            outcome_view(r) == matchers_outcome(matchers@, condition@, response@),
    {
        if matchers.len() == 0 {
            return Ok(MatchResult::not_matched());
        }
        let ghost ms = matchers@;
        let mut results: Vec<MatchResult> = Vec::new();
        let mut i: usize = 0;
        assert(ms.skip(0) =~= ms);
        while i < matchers.len()
            invariant
                ms == matchers@,
                i <= ms.len(),
                results@.len() == i,
                all_outcomes(ms, response@) == prepend_ok(
                    results@.map_values(|m: MatchResult| m@),
                    all_outcomes(ms.skip(i as int), response@),
                ),
            decreases ms.len() - i,
        {
            let ghost before = results@.map_values(|m: MatchResult| m@);
            assert(ms.skip(i as int)[0] == ms[i as int]);
            assert(ms.skip(i as int).drop_first() =~= ms.skip(i + 1));
            match self.evaluate_single(&matchers[i], response) {
                Ok(res) => {
                    results.push(res);
                    assert(results@.map_values(|m: MatchResult| m@) =~= before.push(
                        results@[i as int]@,
                    ));
                    proof {
                        let tail = all_outcomes(ms.skip(i + 1), response@);
                        match tail {
                            Ok(rest) => {
                                assert(before + (seq![results@[i as int]@] + rest) =~= before.push(
                                    results@[i as int]@,
                                ) + rest);
                            },
                            Err(_) => {},
                        }
                    }
                },
                Err(e) => {
                    return Err(e);
                },
            }
            i = i + 1;
        }
        assert(ms.skip(i as int) =~= Seq::<Matcher>::empty());
        let ghost vs = results@.map_values(|m: MatchResult| m@);
        assert(all_outcomes(ms, response@) == Ok::<Seq<MatchView>, MatchErrorView>(vs)) by {
            assert(vs + Seq::<MatchView>::empty() =~= vs);
        }
        let is_and = crate::text::str_eq(condition, "and");
        let mut overall: bool = is_and;
        let mut j: usize = 0;
        while j < results.len()
            invariant
                vs == results@.map_values(|m: MatchResult| m@),
                j <= vs.len(),
                is_and ==> (overall == forall|k: int| 0 <= k < j ==> #[trigger] vs[k].matched),
                !is_and ==> (overall == exists|k: int| 0 <= k < j && #[trigger] vs[k].matched),
            decreases vs.len() - j,
        {
            if is_and {
                overall = overall && results[j].matched;
            } else {
                overall = overall || results[j].matched;
            }
            proof {
                if is_and {
                    if !results@[j as int].matched {
                        assert(!vs[j as int].matched);
                    }
                } else {
                    if results@[j as int].matched {
                        assert(vs[j as int].matched);
                    }
                }
            }
            j = j + 1;
        }
        if !overall {
            return Ok(MatchResult::not_matched());
        }
        let mut k: usize = 0;
        assert(vs.skip(0) =~= vs);
        assert(matchers_outcome(matchers@, condition@, response@) == Ok::<MatchView, MatchErrorView>(first_matched(vs)));
        while k < results.len()
            invariant
                vs == results@.map_values(|m: MatchResult| m@),
                matchers_outcome(matchers@, condition@, response@) == Ok::<MatchView, MatchErrorView>(first_matched(vs)),
                k <= vs.len(),
                first_matched(vs) == first_matched(vs.skip(k as int)),
            decreases vs.len() - k,
        {
            assert(vs.skip(k as int)[0] == vs[k as int]);
            if results[k].matched {
                let r = results.remove(k);
                return Ok(r);
            }
            assert(vs.skip(k as int).drop_first() =~= vs.skip(k + 1));
            k = k + 1;
        }
        Ok(MatchResult::not_matched())
    }

    fn evaluate_single(&mut self, m: &Matcher, response: &HttpResponse) -> (r: Result<MatchResult, MatchError>)
        ensures
            outcome_view(r) == matcher_outcome(*m, response@),
    {
        let t = m.matcher_type.as_str();
        let result = if crate::text::str_eq(t, "status") {
            self.match_status(m, response)
        } else if crate::text::str_eq(t, "size") {
            self.match_size(m, response)
        } else if crate::text::str_eq(t, "word") || crate::text::str_eq(t, "words") {
            self.match_words(m, response)
        } else if crate::text::str_eq(t, "regex") {
            self.match_regex(m, response)
        } else if crate::text::str_eq(t, "binary") {
            self.match_binary(m, response)
        } else if crate::text::str_eq(t, "dsl") {
            self.match_dsl(m, response)
        } else if crate::text::str_eq(t, "xpath") {
            Ok(MatchResult::not_matched())
        } else {
            Err(MatchError::UnsupportedType(m.matcher_type.clone()))
        };
        match result {
            Ok(res) => {
                if m.negative == Some(true) {
                    Ok(MatchResult { matched: !res.matched, ..res })
                } else {
                    Ok(res)
                }
            },
            Err(e) => Err(e),
        }
    }

    fn match_status(&self, m: &Matcher, response: &HttpResponse) -> (r: Result<MatchResult, MatchError>)
        requires
            m.matcher_type@ == "status"@,
        ensures
            outcome_view(r) == plain_outcome(*m, response@),
    {
        match &m.status {
            None => Err(MatchError::MissingStatus),
            Some(codes) => {
                let mut found = false;
                for i in 0..codes.len()
                    invariant
                        found == exists|k: int| 0 <= k < i && codes@[k] == response.status,
                {
                    if codes[i] == response.status {
                        found = true;
                    }
                }
                assert(found == codes@.contains(response.status));
                if found {
                    let mut vals: Vec<String> = Vec::new();
                    vals.push(u64_to_string(response.status as u64));
                    assert(strings_view(vals@) =~= seq![decimal(response.status as nat)]);
                    Ok(MatchResult::matched_with_values(m.name.clone(), vals))
                } else {
                    Ok(MatchResult::not_matched())
                }
            },
        }
    }

    fn match_size(&self, m: &Matcher, response: &HttpResponse) -> (r: Result<MatchResult, MatchError>)
        requires
            m.matcher_type@ == "size"@,
            m.matcher_type@ != "status"@,
        ensures
            outcome_view(r) == plain_outcome(*m, response@),
    {
        match &m.size {
            None => Err(MatchError::MissingSizes),
            Some(sizes) => {
                let n = byte_len(response.body.as_str()) as i64;
                let mut found = false;
                for i in 0..sizes.len()
                    invariant
                        found == exists|k: int| 0 <= k < i && sizes@[k] == n,
                {
                    if sizes[i] == n {
                        found = true;
                    }
                }
                assert(found == sizes@.contains(n));
                if found {
                    let mut vals: Vec<String> = Vec::new();
                    vals.push(i64_to_string(n));
                    assert(strings_view(vals@) =~= seq![signed_decimal(n as int)]);
                    Ok(MatchResult::matched_with_values(m.name.clone(), vals))
                } else {
                    Ok(MatchResult::not_matched())
                }
            },
        }
    }

    fn get_part_text(&self, part: &Option<String>, response: &HttpResponse) -> (s: String)
        ensures
            s@ == part_text(opt_view(*part), response@),
    {
        match part {
            None => response.body.clone(),
            Some(p) => {
                let p = p.as_str();
                if crate::text::str_eq(p, "header") || crate::text::str_eq(p, "headers") {
                    response.headers_string()
                } else if crate::text::str_eq(p, "body") {
                    response.body.clone()
                } else if crate::text::str_eq(p, "all") || crate::text::str_eq(p, "raw")
                    || crate::text::str_eq(p, "response") {
                    response.full_response()
                } else {
                    let pc = chars_of(p);
                    let hc = chars_of("header");
                    if starts_with_exec(pc.as_slice(), hc.as_slice()) {
                        response.headers_string()
                    } else {
                        response.body.clone()
                    }
                }
            },
        }
    }

    fn condition_is_and(cond: &Option<String>) -> (b: bool)
        ensures
            b == (match *cond {
                Some(c) => c@,
                None => "or"@,
            } == "and"@),
    {
        match cond {
            Some(c) => crate::text::str_eq(c.as_str(), "and"),
            None => crate::text::str_eq("or", "and"),
        }
    }

    fn match_words(&self, m: &Matcher, response: &HttpResponse) -> (r: Result<MatchResult, MatchError>)
        requires
            m.matcher_type@ == "word"@ || m.matcher_type@ == "words"@,
            !(m.matcher_type@ == "status"@ || m.matcher_type@ == "size"@),
        ensures
            outcome_view(r) == plain_outcome(*m, response@),
    {
        match &m.words {
            None => Err(MatchError::MissingWords),
            Some(words) => {
                let text = self.get_part_text(&m.part, response);
                let ci = m.case_insensitive == Some(true);
                let tc = chars_of(text.as_str());
                let folded_text = if ci {
                    crate::text::lower_chars(tc.as_slice())
                } else {
                    tc
                };
                let ghost ws = strings_view(words@);
                let mut hits: Vec<String> = Vec::new();
                for i in 0..words.len()
                    invariant
                        ws == strings_view(words@),
                        folded_text@ == if ci {
                            lowercase(text@)
                        } else {
                            text@
                        },
                        strings_view(hits@) == word_hits(ws.take(i as int), text@, ci),
                {
                    assert(ws.take(i + 1).drop_last() =~= ws.take(i as int));
                    let wc = chars_of(words[i].as_str());
                    let folded_word = if ci {
                        crate::text::lower_chars(wc.as_slice())
                    } else {
                        wc
                    };
                    if contains_exec(folded_text.as_slice(), folded_word.as_slice()) {
                        let ghost before = strings_view(hits@);
                        hits.push(words[i].clone());
                        assert(strings_view(hits@) =~= before.push(words@[i as int]@));
                    }
                }
                assert(ws.take(ws.len() as int) =~= ws);
                let matched = if Self::condition_is_and(&m.condition) {
                    hits.len() == words.len()
                } else {
                    hits.len() > 0
                };
                if matched {
                    Ok(MatchResult::matched_with_values(m.name.clone(), hits))
                } else {
                    Ok(MatchResult::not_matched())
                }
            },
        }
    }

    fn match_regex(&mut self, m: &Matcher, response: &HttpResponse) -> (r: Result<MatchResult, MatchError>)
        requires
            m.matcher_type@ == "regex"@,
            !(m.matcher_type@ == "status"@ || m.matcher_type@ == "size"@ || m.matcher_type@
                == "word"@ || m.matcher_type@ == "words"@),
        ensures
            outcome_view(r) == plain_outcome(*m, response@),
    {
        match &m.regex {
            None => Err(MatchError::MissingPatterns),
            Some(patterns) => {
                let text = self.get_part_text(&m.part, response);
                let ghost ps = strings_view(patterns@);
                let mut hits: Vec<String> = Vec::new();
                let mut i: usize = 0;
                assert(ps.skip(0) =~= ps);
                let ghost expected = match regex_hits(ps, text@) {
                    Err(p) => Err(MatchErrorView::InvalidRegex(p)),
                    Ok(hs) => Ok(decide(m.name, hs, condition_met(m.condition, hs.len(), ps.len()))),
                };
                assert(plain_outcome(*m, response@) == expected);
                while i < patterns.len()
                    invariant
                        plain_outcome(*m, response@) == expected,
                        expected == match regex_hits(ps, text@) {
                            Err(p) => Err(MatchErrorView::InvalidRegex(p)),
                            Ok(hs) => Ok(decide(m.name, hs, condition_met(m.condition, hs.len(), ps.len()))),
                        },
                        ps == strings_view(patterns@),
                        text@ == part_text(opt_view(m.part), response@),
                        i <= ps.len(),
                        regex_hits(ps, text@) == prepend_ok(strings_view(hits@), regex_hits(ps.skip(i as int), text@)),
                    decreases ps.len() - i,
                {
                    let ghost rest = ps.skip(i as int);
                    assert(rest[0] == patterns@[i as int]@);
                    assert(rest.drop_first() =~= ps.skip(i + 1));
                    let ghost before = strings_view(hits@);
                    match self.regex_cache.get_or_compile(patterns[i].as_str()) {
                        Ok(re) => {
                            if regex_is_match(re, text.as_str()) {
                                hits.push(patterns[i].clone());
                                assert(strings_view(hits@) =~= before.push(rest[0]));
                                proof {
                                    match regex_hits(ps.skip(i + 1), text@) {
                                        Ok(t) => {
                                            assert(before + (seq![rest[0]] + t) =~= before.push(rest[0]) + t);
                                        },
                                        Err(_) => {},
                                    }
                                }
                            }
                        },
                        Err(_) => {
                            assert(regex_hits(rest, text@) == Err::<Seq<Seq<char>>, Seq<char>>(rest[0]));
                            return Err(MatchError::InvalidRegex(patterns[i].clone()));
                        },
                    }
                    i = i + 1;
                }
                assert(ps.skip(i as int) =~= Seq::<Seq<char>>::empty());
                assert(strings_view(hits@) + Seq::<Seq<char>>::empty() =~= strings_view(hits@));
                let matched = if Self::condition_is_and(&m.condition) {
                    hits.len() == patterns.len()
                } else {
                    hits.len() > 0
                };
                if matched {
                    Ok(MatchResult::matched_with_values(m.name.clone(), hits))
                } else {
                    Ok(MatchResult::not_matched())
                }
            },
        }
    }

    fn match_binary(&self, m: &Matcher, response: &HttpResponse) -> (r: Result<MatchResult, MatchError>)
        requires
            m.matcher_type@ == "binary"@,
            !(m.matcher_type@ == "status"@ || m.matcher_type@ == "size"@ || m.matcher_type@
                == "word"@ || m.matcher_type@ == "words"@ || m.matcher_type@ == "regex"@),
        ensures
            outcome_view(r) == plain_outcome(*m, response@),
    {
        match &m.binary {
            None => Err(MatchError::MissingBinary),
            Some(patterns) => {
                let bytes = response.body.as_str().as_bytes();
                let ghost ps = strings_view(patterns@);
                let space = chars_of(" ");
                let nothing: Vec<char> = Vec::new();
                let mut hits: Vec<String> = Vec::new();
                for i in 0..patterns.len()
                    invariant
                        ps == strings_view(patterns@),
                        bytes@ == vstd::utf8::encode_utf8(response.body@),
                        space@ == " "@,
                        nothing@ == Seq::<char>::empty(),
                        strings_view(hits@) == binary_hits(ps.take(i as int), bytes@),
                {
                    assert(ps.take(i + 1).drop_last() =~= ps.take(i as int));
                    proof {
                        reveal_strlit(" ");
                    }
                    let pc = chars_of(patterns[i].as_str());
                    let hex = string_of(replace_exec(pc.as_slice(), space.as_slice(), nothing.as_slice()).as_slice());
                    match hex_decode(hex.as_str()) {
                        Ok(needle) => {
                            if needle.len() > 0 && bytes_contain_exec(bytes, needle.as_slice()) {
                                let ghost before = strings_view(hits@);
                                hits.push(patterns[i].clone());
                                assert(strings_view(hits@) =~= before.push(patterns@[i as int]@));
                            }
                        },
                        Err(_) => {},
                    }
                }
                assert(ps.take(ps.len() as int) =~= ps);
                if hits.len() > 0 {
                    Ok(MatchResult::matched_with_values(m.name.clone(), hits))
                } else {
                    Ok(MatchResult::not_matched())
                }
            },
        }
    }

    fn match_dsl(&self, m: &Matcher, response: &HttpResponse) -> (r: Result<MatchResult, MatchError>)
        requires
            m.matcher_type@ == "dsl"@,
            !(m.matcher_type@ == "status"@ || m.matcher_type@ == "size"@ || m.matcher_type@
                == "word"@ || m.matcher_type@ == "words"@ || m.matcher_type@ == "regex"@
                || m.matcher_type@ == "binary"@),
        ensures
            outcome_view(r) == plain_outcome(*m, response@),
    {
        match &m.dsl {
            None => Err(MatchError::MissingDsl),
            Some(exprs) => {
                let ghost es = strings_view(exprs@);
                let mut hits: Vec<String> = Vec::new();
                for i in 0..exprs.len()
                    invariant
                        es == strings_view(exprs@),
                        strings_view(hits@) == dsl_hits(es.take(i as int), response@),
                {
                    assert(es.take(i + 1).drop_last() =~= es.take(i as int));
                    let ec = chars_of(exprs[i].as_str());
                    if eval_dsl(ec.as_slice(), response) {
                        let ghost before = strings_view(hits@);
                        hits.push(exprs[i].clone());
                        assert(strings_view(hits@) =~= before.push(exprs@[i as int]@));
                    }
                }
                assert(es.take(es.len() as int) =~= es);
                let matched = if Self::condition_is_and(&m.condition) {
                    hits.len() == exprs.len()
                } else {
                    hits.len() > 0
                };
                if matched {
                    Ok(MatchResult::matched_with_values(m.name.clone(), hits))
                } else {
                    Ok(MatchResult::not_matched())
                }
            },
        }
    }
}

impl Default for MatcherEngine {
    fn default() -> (e: Self)
        ensures
            e.cache_size() == 0,
    {
        MatcherEngine::new()
    }
}

} // verus!
