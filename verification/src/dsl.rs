//! The expression language of `dsl` matchers: boolean expressions over a
//! response, such as `contains(body, "admin")`, `status_code == 200` or
//! `len(body) > 100`.
//!
//! An expression that is not recognised evaluates to false. So does a
//! function call or comparison with an argument that is a lone quote
//! character, which is no quoted string and names no value.

use vstd::prelude::*;
use crate::regex_support::{compile_regex, regex_is_match, regex_matches, regex_valid};
use crate::scanner::response::{find_header, headers_text, HttpResponse, ResponseView};
use crate::text::{
    alphabetic, byte_len, char_index, char_index_exec, chars_eq_str, chars_of, contains,
    contains_exec, decimal, decimal_chars, ends_with, ends_with_exec, is_alphabetic,
    lemma_char_index, lemma_trim_len, lower_chars, lowercase, parse_i64, parse_i64_exec,
    starts_with, starts_with_exec, string_of, trim, trim_exec, utf8_len,
};

verus! {

/// A token is wrapped in matching double or single quotes.
pub open spec fn quoted(t: Seq<char>) -> bool {
    t.len() > 0 && ((t[0] == '"' && t.last() == '"') || (t[0] == '\'' && t.last() == '\''))
}

/// The value of a header, or the empty string.
pub open spec fn header_or_empty(r: ResponseView, name: Seq<char>) -> Seq<char> {
    match find_header(r.headers, name) {
        Some(v) => v,
        None => Seq::empty(),
    }
}

/// The string a token stands for: a quoted literal without its quotes, a
/// response variable (`body`, `header`, `status_code`, `content_length`,
/// `content_type`, `location`, `server`, compared case-insensitively), or
/// else the header of that name (empty when absent). `None` for a token
/// that is a lone quote character.
pub open spec fn resolve_str(token: Seq<char>, r: ResponseView) -> Option<Seq<char>> {
    let t = trim(token);
    if quoted(t) {
        if t.len() >= 2 {
            Some(t.subrange(1, t.len() - 1))
        } else {
            None
        }
    } else {
        let l = lowercase(t);
        Some(
            if l == "body"@ {
                r.body
            } else if l == "header"@ || l == "all_headers"@ || l == "raw_header"@ {
                headers_text(r.headers)
            } else if l == "status_code"@ {
                decimal(r.status as nat)
            } else if l == "content_length"@ || l == "body_size"@ {
                decimal(r.content_length as nat)
            } else if l == "content_type"@ {
                header_or_empty(r, "content-type"@)
            } else if l == "location"@ {
                header_or_empty(r, "location"@)
            } else if l == "server"@ {
                header_or_empty(r, "server"@)
            } else {
                header_or_empty(r, t)
            },
        )
    }
}

/// Every token resolves to a string but a lone quote character, which is
/// no quoted string and names no value.
pub proof fn law_resolve_str_refuses_only_a_lone_quote(token: Seq<char>, r: ResponseView)
    ensures
        resolve_str(token, r) is None <==> (trim(token).len() == 1 && (trim(token)[0] == '"'
            || trim(token)[0] == '\'')),
{
}

/// The number a numeric variable stands for.
pub open spec fn resolve_num(token: Seq<char>, r: ResponseView) -> i64 {
    let l = lowercase(token);
    if l == "status_code"@ {
        r.status as i64
    } else if l == "content_length"@ || l == "body_size"@ {
        r.content_length as i64
    } else {
        0
    }
}

/// The arguments of `name(...)` when `e` is such a call (the name compared
/// case-insensitively).
pub open spec fn strip_fn(e: Seq<char>, name: Seq<char>) -> Option<Seq<char>> {
    let prefix = name.push('(');
    if starts_with(lowercase(e), lowercase(prefix)) && ends_with(e, seq![')']) && e.len()
        >= prefix.len() + 1 {
        Some(e.subrange(prefix.len() as int, e.len() - 1))
    } else {
        None
    }
}

/// Scans for the first comma outside parentheses and quotes.
pub open spec fn comma_scan(a: Seq<char>, i: int, depth: int, in_str: bool, q: char) -> Option<int>
    decreases a.len() - i,
{
    if i < 0 || i >= a.len() {
        None
    } else if in_str {
        comma_scan(a, i + 1, depth, a[i] != q, q)
    } else if a[i] == '"' || a[i] == '\'' {
        comma_scan(a, i + 1, depth, true, a[i])
    } else if a[i] == '(' {
        comma_scan(a, i + 1, depth + 1, false, q)
    } else if a[i] == ')' {
        comma_scan(a, i + 1, depth - 1, false, q)
    } else if a[i] == ',' && depth == 0 {
        Some(i)
    } else {
        comma_scan(a, i + 1, depth, false, q)
    }
}

/// Two arguments split at the top-level comma, each trimmed; the second is
/// empty when there is no such comma.
pub open spec fn split_args(a: Seq<char>) -> (Seq<char>, Seq<char>) {
    match comma_scan(a, 0, 0, false, '"') {
        Some(i) => (trim(a.take(i)), trim(a.skip(i + 1))),
        None => (trim(a), Seq::empty()),
    }
}

/// Scans for the first occurrence of `op` outside parentheses and quotes.
pub open spec fn op_scan(e: Seq<char>, op: Seq<char>, i: int, depth: int, in_str: bool, q: char) -> Option<int>
    decreases e.len() - i,
{
    if i < 0 || i >= e.len() {
        None
    } else if in_str {
        op_scan(e, op, i + 1, depth, e[i] != q, q)
    } else if e[i] == '"' || e[i] == '\'' {
        op_scan(e, op, i + 1, depth, true, e[i])
    } else if e[i] == '(' {
        op_scan(e, op, i + 1, depth + 1, false, q)
    } else if e[i] == ')' {
        op_scan(e, op, i + 1, depth - 1, false, q)
    } else if depth == 0 && starts_with(e.skip(i), op) {
        Some(i)
    } else {
        op_scan(e, op, i + 1, depth, false, q)
    }
}

/// Position of `op` outside parentheses and quotes.
pub open spec fn find_op(e: Seq<char>, op: Seq<char>) -> Option<int> {
    op_scan(e, op, 0, 0, false, '"')
}

/// The comparison operators, in the order they are tried.
pub open spec fn comparison_op(k: int) -> Seq<char> {
    if k == 0 {
        "=="@
    } else if k == 1 {
        "!="@
    } else if k == 2 {
        ">="@
    } else if k == 3 {
        "<="@
    } else if k == 4 {
        ">"@
    } else {
        "<"@
    }
}

pub open spec fn parse_comparison_from(t: Seq<char>, k: int) -> Option<(Seq<char>, Seq<char>)>
    decreases 6 - k,
{
    if k < 0 || k >= 6 {
        None
    } else if starts_with(t, comparison_op(k)) {
        Some((comparison_op(k), t.skip(comparison_op(k).len() as int)))
    } else {
        parse_comparison_from(t, k + 1)
    }
}

/// The first operator that the trimmed text begins with, and the text after it.
pub open spec fn parse_comparison(s: Seq<char>) -> Option<(Seq<char>, Seq<char>)> {
    parse_comparison_from(trim(s), 0)
}

/// Integer comparison by operator name; false for an unknown operator.
pub open spec fn apply_comparison(lhs: i64, op: Seq<char>, rhs: i64) -> bool {
    if op == "=="@ {
        lhs == rhs
    } else if op == "!="@ {
        lhs != rhs
    } else if op == ">="@ {
        lhs >= rhs
    } else if op == "<="@ {
        lhs <= rhs
    } else if op == ">"@ {
        lhs > rhs
    } else if op == "<"@ {
        lhs < rhs
    } else {
        false
    }
}

/// Each comparison operator compares two numbers as its symbol says.
pub proof fn law_comparison_operators(a: i64, b: i64)
    ensures
        apply_comparison(a, "=="@, b) == (a == b),
        apply_comparison(a, "!="@, b) == (a != b),
        apply_comparison(a, ">="@, b) == (a >= b),
        apply_comparison(a, "<="@, b) == (a <= b),
        apply_comparison(a, ">"@, b) == (a > b),
        apply_comparison(a, "<"@, b) == (a < b),
{
    reveal_strlit("==");
    reveal_strlit("!=");
    reveal_strlit(">=");
    reveal_strlit("<=");
    reveal_strlit(">");
    reveal_strlit("<");
    assert("=="@.len() == 2 && "=="@[0] == '=');
    assert("!="@.len() == 2 && "!="@[0] == '!');
    assert(">="@.len() == 2 && ">="@[0] == '>');
    assert("<="@.len() == 2 && "<="@[0] == '<');
    assert(">"@.len() == 1 && ">"@[0] == '>');
    assert("<"@.len() == 1 && "<"@[0] == '<');
}

/// The functions of two string arguments, in the order they are tried.
pub open spec fn fn_name(k: int) -> Seq<char> {
    if k == 0 {
        "contains"@
    } else if k == 1 {
        "!contains"@
    } else if k == 2 {
        "startswith"@
    } else if k == 3 {
        "endswith"@
    } else {
        "regex"@
    }
}

/// What function `k` answers for its two resolved arguments.
pub open spec fn fn_result(k: int, x: Seq<char>, y: Seq<char>) -> bool {
    if k == 0 {
        contains(x, y)
    } else if k == 1 {
        !contains(x, y)
    } else if k == 2 {
        starts_with(x, y)
    } else if k == 3 {
        ends_with(x, y)
    } else {
        regex_valid(x) && regex_matches(x, y)
    }
}

/// Each two-argument function answers what its name says: `contains` and
/// `!contains` whether the second string occurs in the first, `startswith`
/// and `endswith` whether the first begins or ends with the second, and
/// `regex` whether the first, as a pattern that compiles, matches the second.
pub proof fn law_dsl_functions(x: Seq<char>, y: Seq<char>)
    ensures
        fn_name(0) == "contains"@ && fn_result(0, x, y) == contains(x, y),
        fn_name(1) == "!contains"@ && fn_result(1, x, y) == !contains(x, y),
        fn_name(2) == "startswith"@ && fn_result(2, x, y) == starts_with(x, y),
        fn_name(3) == "endswith"@ && fn_result(3, x, y) == ends_with(x, y),
        fn_name(4) == "regex"@ && fn_result(4, x, y) == (regex_valid(x) && regex_matches(x, y)),
{
}

/// Both arguments resolved.
pub open spec fn two_args(a: Seq<char>, r: ResponseView) -> Option<(Seq<char>, Seq<char>)> {
    let (p, q) = split_args(a);
    match resolve_str(p, r) {
        Some(x) => match resolve_str(q, r) {
            Some(y) => Some((x, y)),
            None => None,
        },
        None => None,
    }
}

/// The value of the first function call form that `e` is, if any (false
/// where an argument is a lone quote).
pub open spec fn fn_calls(e: Seq<char>, r: ResponseView, k: int) -> Option<bool>
    decreases 5 - k,
{
    if k < 0 || k >= 5 {
        None
    } else {
        match strip_fn(e, fn_name(k)) {
            Some(a) => Some(
                match two_args(a, r) {
                    Some((x, y)) => fn_result(k, x, y),
                    None => false,
                },
            ),
            None => fn_calls(e, r, k + 1),
        }
    }
}

/// Compares `val` as `after` says (`op number`), or tests it for being
/// positive when `after` is no such comparison.
pub open spec fn len_compare(val: i64, after: Seq<char>) -> bool {
    match parse_comparison(after) {
        Some((op, rhs)) => match parse_i64(trim(rhs)) {
            Some(n) => apply_comparison(val, op, n),
            None => val > 0,
        },
        None => val > 0,
    }
}

/// `len(x) op n`: the byte length of `x` compared with `n` (false where `x`
/// is a lone quote).
pub open spec fn len_form(e: Seq<char>, r: ResponseView) -> Option<bool> {
    if starts_with(e, "len("@) {
        let rest = e.skip(4);
        let k = char_index(rest, ')');
        if k < rest.len() {
            match resolve_str(rest.take(k), r) {
                Some(v) => Some(len_compare(((utf8_len(v) as usize) as i64), trim(rest.skip(k + 1)))),
                None => Some(false),
            }
        } else {
            None
        }
    } else {
        None
    }
}

/// The numeric variables, in the order they are tried.
pub open spec fn num_var(k: int) -> Seq<char> {
    if k == 0 {
        "status_code"@
    } else if k == 1 {
        "content_length"@
    } else {
        "body_size"@
    }
}

/// `var op n` for a numeric variable, or a bare variable (true).
pub open spec fn var_forms(e: Seq<char>, r: ResponseView, k: int) -> Option<bool>
    decreases 3 - k,
{
    if k < 0 || k >= 3 {
        None
    } else if starts_with(e, num_var(k)) {
        let rest = trim(e.skip(num_var(k).len() as int));
        if rest.len() == 0 {
            Some(true)
        } else {
            match parse_comparison(rest) {
                Some((op, rhs)) => match parse_i64(trim(rhs)) {
                    Some(n) => Some(apply_comparison(resolve_num(num_var(k), r), op, n)),
                    None => var_forms(e, r, k + 1),
                },
                None => var_forms(e, r, k + 1),
            }
        }
    } else {
        var_forms(e, r, k + 1)
    }
}

/// Compares two resolved values: as integers when both parse, otherwise
/// as strings for `==` and `!=`; false otherwise.
pub open spec fn compare_values(lv: Seq<char>, op: Seq<char>, rv: Seq<char>) -> bool {
    match (parse_i64(lv), parse_i64(rv)) {
        (Some(a), Some(b)) => apply_comparison(a, op, b),
        _ => if op == "=="@ {
            lv == rv
        } else if op == "!="@ {
            lv != rv
        } else {
            false
        },
    }
}

/// `lhs op rhs` for the first operator that occurs; false when none does,
/// or where a side is a lone quote.
pub open spec fn comparison_forms(e: Seq<char>, r: ResponseView, k: int) -> bool
    decreases 6 - k,
{
    if k < 0 || k >= 6 {
        false
    } else {
        match find_op(e, comparison_op(k)) {
            Some(pos) => {
                let lhs = trim(e.take(pos));
                let rhs = trim(e.skip(pos + comparison_op(k).len()));
                match (resolve_str(lhs, r), resolve_str(rhs, r)) {
                    (Some(lv), Some(rv)) => compare_values(lv, comparison_op(k), rv),
                    _ => false,
                }
            },
            None => comparison_forms(e, r, k + 1),
        }
    }
}

/// A trimmed expression that is a negation of a non-call sub-expression.
pub open spec fn negation_applies(e: Seq<char>) -> bool {
    let inner = trim(e.drop_first());
    e.len() > 0 && e[0] == '!' && !(inner.len() > 0 && alphabetic(inner[0]))
}

/// The value of a trimmed expression that is no literal and no negation.
pub open spec fn dsl_eval_plain(e: Seq<char>, r: ResponseView) -> bool {
    match fn_calls(e, r, 0) {
        Some(res) => res,
        None => match len_form(e, r) {
            Some(res) => res,
            None => match var_forms(e, r, 0) {
                Some(b) => b,
                None => comparison_forms(e, r, 0),
            },
        },
    }
}

/// The value of a DSL expression against a response.
pub open spec fn dsl_eval(expr: Seq<char>, r: ResponseView) -> bool
    decreases expr.len(),
{
    let e = trim(expr);
    let l = lowercase(e);
    if l == "true"@ {
        true
    } else if l == "false"@ {
        false
    } else if negation_applies(e) {
        proof {
            lemma_trim_len(expr);
            lemma_trim_len(e.drop_first());
        }
        !dsl_eval(trim(e.drop_first()), r)
    } else {
        dsl_eval_plain(e, r)
    }
}

} // verus!

verus! {

/// The characters held, if any.
pub open spec fn chars_view(o: Option<Vec<char>>) -> Option<Seq<char>> {
    match o {
        Some(v) => Some(v@),
        None => None,
    }
}

fn header_or_empty_exec(resp: &HttpResponse, name: &str) -> (v: Vec<char>)
    ensures
        v@ == header_or_empty(resp@, name@),
{
    match resp.get_header(name) {
        Some(h) => chars_of(h.as_str()),
        None => Vec::new(),
    }
}

/// The string a token stands for (see `resolve_str`).
pub fn resolve_str_exec(token: &[char], resp: &HttpResponse) -> (r: Option<Vec<char>>)
    ensures
        chars_view(r) == resolve_str(token@, resp@),
{
    let t = trim_exec(token);
    let n = t.len();
    if n > 0 && ((t[0] == '"' && t[n - 1] == '"') || (t[0] == '\'' && t[n - 1] == '\'')) {
        if n >= 2 {
            return Some(vstd::slice::slice_to_vec(&t[1..n - 1]));
        } else {
            return None;
        }
    }
    let l = lower_chars(t);
    let l = l.as_slice();
    let v = if chars_eq_str(l, "body") {
        chars_of(resp.body.as_str())
    } else if chars_eq_str(l, "header") || chars_eq_str(l, "all_headers") || chars_eq_str(
        l,
        "raw_header",
    ) {
        chars_of(resp.headers_string().as_str())
    } else if chars_eq_str(l, "status_code") {
        decimal_chars(resp.status as u64)
    } else if chars_eq_str(l, "content_length") || chars_eq_str(l, "body_size") {
        decimal_chars(resp.content_length)
    } else if chars_eq_str(l, "content_type") {
        header_or_empty_exec(resp, "content-type")
    } else if chars_eq_str(l, "location") {
        header_or_empty_exec(resp, "location")
    } else if chars_eq_str(l, "server") {
        header_or_empty_exec(resp, "server")
    } else {
        let name = string_of(t);
        header_or_empty_exec(resp, name.as_str())
    };
    Some(v)
}

/// The number a numeric variable stands for (see `resolve_num`).
pub fn resolve_num_exec(token: &str, resp: &HttpResponse) -> (n: i64)
    ensures
        n == resolve_num(token@, resp@),
{
    let tc = chars_of(token);
    let l = lower_chars(tc.as_slice());
    if chars_eq_str(l.as_slice(), "status_code") {
        resp.status as i64
    } else if chars_eq_str(l.as_slice(), "content_length") || chars_eq_str(
        l.as_slice(),
        "body_size",
    ) {
        resp.content_length as i64
    } else {
        0
    }
}

/// The arguments of a call of `name` (see `strip_fn`).
pub fn strip_fn_exec(e: &[char], name: &str) -> (r: Option<Vec<char>>)
    ensures
        chars_view(r) == strip_fn(e@, name@),
{
    let mut prefix = chars_of(name);
    prefix.push('(');
    let le = lower_chars(e);
    let lp = lower_chars(prefix.as_slice());
    let close: Vec<char> = vec![')'];
    assert(close@ =~= seq![')']);
    let n = prefix.len();
    if starts_with_exec(le.as_slice(), lp.as_slice()) && ends_with_exec(e, close.as_slice())
        && e.len() > n {
        Some(vstd::slice::slice_to_vec(&e[n..e.len() - 1]))
    } else {
        None
    }
}

/// Two arguments split at the top-level comma (see `split_args`).
pub fn split_args_exec(a: &[char]) -> (r: (Vec<char>, Vec<char>))
    ensures
        (r.0@, r.1@) == split_args(a@),
{
    let mut depth: i128 = 0;
    let mut in_str = false;
    let mut q = '"';
    let mut i: usize = 0;
    while i < a.len()
        invariant
            i <= a@.len(),
            -(i as int) <= depth <= i,
            comma_scan(a@, 0, 0, false, '"') == comma_scan(a@, i as int, depth as int, in_str, q),
        decreases a@.len() - i,
    {
        let c = a[i];
        if in_str {
            if c == q {
                in_str = false;
            }
        } else if c == '"' || c == '\'' {
            in_str = true;
            q = c;
        } else if c == '(' {
            depth = depth + 1;
        } else if c == ')' {
            depth = depth - 1;
        } else if c == ',' && depth == 0 {
            let left = trim_exec(&a[0..i]);
            let right = trim_exec(&a[i + 1..a.len()]);
            assert(a@.subrange(0, i as int) =~= a@.take(i as int));
            assert(a@.subrange(i + 1, a@.len() as int) =~= a@.skip(i + 1));
            return (vstd::slice::slice_to_vec(left), vstd::slice::slice_to_vec(right));
        }
        i = i + 1;
    }
    let all = trim_exec(a);
    (vstd::slice::slice_to_vec(all), Vec::new())
}

/// Position of `op` outside parentheses and quotes (see `find_op`).
pub fn find_op_exec(e: &[char], op: &[char]) -> (r: Option<usize>)
    ensures
        match r {
            Some(p) => find_op(e@, op@) == Some(p as int),
            None => find_op(e@, op@) is None,
        },
{
    let mut depth: i128 = 0;
    let mut in_str = false;
    let mut q = '"';
    let mut i: usize = 0;
    while i < e.len()
        invariant
            i <= e@.len(),
            -(i as int) <= depth <= i,
            find_op(e@, op@) == op_scan(e@, op@, i as int, depth as int, in_str, q),
        decreases e@.len() - i,
    {
        let c = e[i];
        if in_str {
            if c == q {
                in_str = false;
            }
        } else if c == '"' || c == '\'' {
            in_str = true;
            q = c;
        } else if c == '(' {
            depth = depth + 1;
        } else if c == ')' {
            depth = depth - 1;
        } else if depth == 0 && starts_with_exec(&e[i..e.len()], op) {
            assert(e@.subrange(i as int, e@.len() as int) =~= e@.skip(i as int));
            return Some(i);
        } else {
            assert(e@.subrange(i as int, e@.len() as int) =~= e@.skip(i as int));
        }
        i = i + 1;
    }
    None
}

/// The comparison operator `k` (see `comparison_op`).
fn comparison_op_exec(k: usize) -> (s: &'static str)
    requires
        k < 6,
    ensures
        s@ == comparison_op(k as int),
{
    if k == 0 {
        "=="
    } else if k == 1 {
        "!="
    } else if k == 2 {
        ">="
    } else if k == 3 {
        "<="
    } else if k == 4 {
        ">"
    } else {
        "<"
    }
}

/// The operator the trimmed text begins with, and the rest (see `parse_comparison`).
pub fn parse_comparison_exec(s: &[char]) -> (r: Option<(Vec<char>, Vec<char>)>)
    ensures
        match r {
            Some((op, rest)) => parse_comparison(s@) == Some((op@, rest@)),
            None => parse_comparison(s@) is None,
        },
{
    let t = trim_exec(s);
    let mut k: usize = 0;
    while k < 6
        invariant
            k <= 6,
            t@ == trim(s@),
            parse_comparison(s@) == parse_comparison_from(t@, k as int),
        decreases 6 - k,
    {
        let op = chars_of(comparison_op_exec(k));
        if starts_with_exec(t, op.as_slice()) {
            let rest = vstd::slice::slice_to_vec(&t[op.len()..t.len()]);
            assert(rest@ =~= t@.skip(op@.len() as int));
            return Some((op, rest));
        }
        k = k + 1;
    }
    None
}

/// Integer comparison by operator name (see `apply_comparison`).
pub fn apply_comparison_exec(lhs: i64, op: &[char], rhs: i64) -> (b: bool)
    ensures
        b == apply_comparison(lhs, op@, rhs),
{
    if chars_eq_str(op, "==") {
        lhs == rhs
    } else if chars_eq_str(op, "!=") {
        lhs != rhs
    } else if chars_eq_str(op, ">=") {
        lhs >= rhs
    } else if chars_eq_str(op, "<=") {
        lhs <= rhs
    } else if chars_eq_str(op, ">") {
        lhs > rhs
    } else if chars_eq_str(op, "<") {
        lhs < rhs
    } else {
        false
    }
}

} // verus!

verus! {

fn fn_name_exec(k: usize) -> (s: &'static str)
    requires
        k < 5,
    ensures
        s@ == fn_name(k as int),
{
    if k == 0 {
        "contains"
    } else if k == 1 {
        "!contains"
    } else if k == 2 {
        "startswith"
    } else if k == 3 {
        "endswith"
    } else {
        "regex"
    }
}

fn num_var_exec(k: usize) -> (s: &'static str)
    requires
        k < 3,
    ensures
        s@ == num_var(k as int),
{
    if k == 0 {
        "status_code"
    } else if k == 1 {
        "content_length"
    } else {
        "body_size"
    }
}

fn two_args_exec(a: &[char], resp: &HttpResponse) -> (r: Option<(Vec<char>, Vec<char>)>)
    ensures
        match r {
            Some((x, y)) => two_args(a@, resp@) == Some((x@, y@)),
            None => two_args(a@, resp@) is None,
        },
{
    let (p, q) = split_args_exec(a);
    match resolve_str_exec(p.as_slice(), resp) {
        Some(x) => match resolve_str_exec(q.as_slice(), resp) {
            Some(y) => Some((x, y)),
            None => None,
        },
        None => None,
    }
}

fn fn_result_exec(k: usize, x: &[char], y: &[char]) -> (b: bool)
    requires
        k < 5,
    ensures
        b == fn_result(k as int, x@, y@),
{
    if k == 0 {
        contains_exec(x, y)
    } else if k == 1 {
        !contains_exec(x, y)
    } else if k == 2 {
        starts_with_exec(x, y)
    } else if k == 3 {
        ends_with_exec(x, y)
    } else {
        let pat = string_of(x);
        let src = string_of(y);
        match compile_regex(pat.as_str()) {
            Ok(re) => regex_is_match(&re, src.as_str()),
            Err(_) => false,
        }
    }
}

fn fn_calls_exec(e: &[char], resp: &HttpResponse) -> (r: Option<bool>)
    ensures
        r == fn_calls(e@, resp@, 0),
{
    let mut k: usize = 0;
    while k < 5
        invariant
            k <= 5,
            fn_calls(e@, resp@, 0) == fn_calls(e@, resp@, k as int),
        decreases 5 - k,
    {
        match strip_fn_exec(e, fn_name_exec(k)) {
            Some(a) => {
                return Some(
                    match two_args_exec(a.as_slice(), resp) {
                        Some((x, y)) => fn_result_exec(k, x.as_slice(), y.as_slice()),
                        None => false,
                    },
                );
            },
            None => {},
        }
        k = k + 1;
    }
    None
}

fn len_compare_exec(val: i64, after: &[char]) -> (b: bool)
    ensures
        b == len_compare(val, after@),
{
    match parse_comparison_exec(after) {
        Some((op, rhs)) => match parse_i64_exec(trim_exec(rhs.as_slice())) {
            Some(n) => apply_comparison_exec(val, op.as_slice(), n),
            None => val > 0,
        },
        None => val > 0,
    }
}

fn len_form_exec(e: &[char], resp: &HttpResponse) -> (r: Option<bool>)
    ensures
        r == len_form(e@, resp@),
{
    let lp = chars_of("len(");
    if !starts_with_exec(e, lp.as_slice()) {
        return None;
    }
    proof {
        reveal_strlit("len(");
    }
    let rest = &e[4..e.len()];
    assert(rest@ =~= e@.skip(4));
    let k = char_index_exec(rest, ')');
    proof {
        lemma_char_index(rest@, ')');
    }
    if k == rest.len() {
        return None;
    }
    let inner = &rest[0..k];
    assert(inner@ =~= rest@.take(k as int));
    let after = &rest[k + 1..rest.len()];
    assert(after@ =~= rest@.skip(k + 1));
    match resolve_str_exec(inner, resp) {
        Some(v) => {
            let s = string_of(v.as_slice());
            let n = byte_len(s.as_str());
            Some(len_compare_exec(n as i64, trim_exec(after)))
        },
        None => Some(false),
    }
}

fn var_forms_exec(e: &[char], resp: &HttpResponse) -> (r: Option<bool>)
    ensures
        r == var_forms(e@, resp@, 0),
{
    let mut k: usize = 0;
    while k < 3
        invariant
            k <= 3,
            var_forms(e@, resp@, 0) == var_forms(e@, resp@, k as int),
        decreases 3 - k,
    {
        let var = num_var_exec(k);
        let vc = chars_of(var);
        if starts_with_exec(e, vc.as_slice()) {
            let after = &e[vc.len()..e.len()];
            assert(after@ =~= e@.skip(vc@.len() as int));
            let rest = trim_exec(after);
            if rest.len() == 0 {
                return Some(true);
            }
            match parse_comparison_exec(rest) {
                Some((op, rhs)) => match parse_i64_exec(trim_exec(rhs.as_slice())) {
                    Some(n) => {
                        let lhs = resolve_num_exec(var, resp);
                        return Some(apply_comparison_exec(lhs, op.as_slice(), n));
                    },
                    None => {},
                },
                None => {},
            }
        }
        k = k + 1;
    }
    None
}

fn compare_values_exec(lv: &[char], op: &[char], rv: &[char]) -> (b: bool)
    ensures
        b == compare_values(lv@, op@, rv@),
{
    match (parse_i64_exec(lv), parse_i64_exec(rv)) {
        (Some(a), Some(b)) => apply_comparison_exec(a, op, b),
        _ => if chars_eq_str(op, "==") {
            crate::text::seq_eq(lv, rv)
        } else if chars_eq_str(op, "!=") {
            !crate::text::seq_eq(lv, rv)
        } else {
            false
        },
    }
}

fn comparison_forms_exec(e: &[char], resp: &HttpResponse) -> (r: bool)
    ensures
        r == comparison_forms(e@, resp@, 0),
{
    let mut k: usize = 0;
    while k < 6
        invariant
            k <= 6,
            comparison_forms(e@, resp@, 0) == comparison_forms(e@, resp@, k as int),
        decreases 6 - k,
    {
        let op = chars_of(comparison_op_exec(k));
        match find_op_exec(e, op.as_slice()) {
            Some(pos) => {
                proof {
                    lemma_op_scan_bounds(e@, op@, 0, 0, false, '"');
                    assert(find_op(e@, op@) == Some(pos as int));
                    assert(pos + op@.len() <= e@.len());
                }
                let elen = e.len();
                let lhs = trim_exec(&e[0..pos]);
                assert(e@.subrange(0, pos as int) =~= e@.take(pos as int));
                let rhs = trim_exec(&e[pos + op.len()..elen]);
                assert(e@.subrange(pos + op@.len(), e@.len() as int) =~= e@.skip(
                    pos + op@.len(),
                ));
                let lv = resolve_str_exec(lhs, resp);
                let rv = resolve_str_exec(rhs, resp);
                return match (lv, rv) {
                    (Some(a), Some(b)) => compare_values_exec(a.as_slice(), op.as_slice(), b.as_slice()),
                    _ => false,
                };
            },
            None => {},
        }
        k = k + 1;
    }
    false
}

proof fn lemma_op_scan_bounds(e: Seq<char>, op: Seq<char>, i: int, depth: int, in_str: bool, q: char)
    ensures
        op_scan(e, op, i, depth, in_str, q) matches Some(p) ==> 0 <= p && p + op.len() <= e.len(),
    decreases e.len() - i,
{
    if 0 <= i < e.len() {
        if in_str {
            lemma_op_scan_bounds(e, op, i + 1, depth, e[i] != q, q);
        } else if e[i] == '"' || e[i] == '\'' {
            lemma_op_scan_bounds(e, op, i + 1, depth, true, e[i]);
        } else if e[i] == '(' {
            lemma_op_scan_bounds(e, op, i + 1, depth + 1, false, q);
        } else if e[i] == ')' {
            lemma_op_scan_bounds(e, op, i + 1, depth - 1, false, q);
        } else if depth == 0 && starts_with(e.skip(i), op) {
        } else {
            lemma_op_scan_bounds(e, op, i + 1, depth, false, q);
        }
    }
}

/// The value of a DSL expression against a response.
pub fn eval_dsl(expr: &[char], resp: &HttpResponse) -> (r: bool)
    ensures
        r == dsl_eval(expr@, resp@),
    decreases expr@.len(),
{
    let e = trim_exec(expr);
    let l = lower_chars(e);
    if chars_eq_str(l.as_slice(), "true") {
        return true;
    }
    if chars_eq_str(l.as_slice(), "false") {
        return false;
    }
    if e.len() > 0 && e[0] == '!' {
        let rest = &e[1..e.len()];
        assert(rest@ =~= e@.drop_first());
        let inner = trim_exec(rest);
        if !(inner.len() > 0 && is_alphabetic(inner[0])) {
            proof {
                lemma_trim_len(expr@);
                lemma_trim_len(e@.drop_first());
            }
            return !eval_dsl(inner, resp);
        }
    }
    match fn_calls_exec(e, resp) {
        Some(res) => res,
        None => match len_form_exec(e, resp) {
            Some(res) => res,
            None => match var_forms_exec(e, resp) {
                Some(b) => b,
                None => comparison_forms_exec(e, resp),
            },
        },
    }
}

/// Whether a DSL expression holds of a response; false for an expression
/// that is not recognised.
pub fn eval_dsl_bool(expr: &str, resp: &HttpResponse) -> (b: bool)
    ensures
        b == dsl_eval(expr@, resp@),
{
    let cs = chars_of(expr);
    eval_dsl(cs.as_slice(), resp)
}

} // verus!
