//! What the HTTP client decides around each exchange: which response
//! headers are kept, the response it hands on, and when to retry.

use vstd::prelude::*;
use crate::raw_request::{lemma_pair_index, pair_index};
use crate::scanner::response::{pairs_view, HttpResponse};
use crate::text::{byte_len, lowercase, to_lowercase, utf8_len};
use crate::time::TimeSpan;
use vstd::arithmetic::power2::{
    lemma2_to64, lemma2_to64_rest, lemma_pow2_strictly_increases, lemma_pow2_unfold, pow2,
};

verus! {

/// Received headers: names with values that are visible text, or none.
pub open spec fn raw_headers_view(v: Seq<(String, Option<String>)>) -> Seq<(Seq<char>, Option<Seq<char>>)> {
    v.map_values(|e: (String, Option<String>)| (e.0@, crate::scanner::opt_view(e.1)))
}

/// The headers kept from a response: names lowercased, the first readable
/// value of each name, in the order the names first got one.
pub open spec fn kept_headers(raw: Seq<(Seq<char>, Option<Seq<char>>)>) -> Seq<(Seq<char>, Seq<char>)>
    decreases raw.len(),
{
    if raw.len() == 0 {
        Seq::empty()
    } else {
        let acc = kept_headers(raw.drop_last());
        let key = lowercase(raw.last().0);
        if pair_index(acc, key) < acc.len() {
            acc
        } else {
            match raw.last().1 {
                Some(v) => acc.push((key, v)),
                None => acc,
            }
        }
    }
}

/// Whether a header of this name is held.
fn holds_name(acc: &Vec<(String, String)>, k: &str) -> (b: bool)
    ensures
        b == (pair_index(pairs_view(acc@), k@) < acc@.len()),
{
    let ghost cur = pairs_view(acc@);
    proof {
        lemma_pair_index(cur, k@);
    }
    let mut j: usize = 0;
    while j < acc.len()
        invariant
            cur == pairs_view(acc@),
            j <= acc@.len(),
            forall|m: int| 0 <= m < j ==> cur[m].0 != k@,
            0 <= pair_index(cur, k@) <= cur.len(),
            pair_index(cur, k@) < cur.len() ==> cur[pair_index(cur, k@)].0 == k@,
            forall|m: int| 0 <= m < pair_index(cur, k@) ==> cur[m].0 != k@,
        decreases acc@.len() - j,
    {
        if crate::text::str_eq(acc[j].0.as_str(), k) {
            assert(cur[j as int].0 == k@);
            return true;
        }
        j = j + 1;
    }
    false
}

/// The headers kept from the received ones (see `kept_headers`).
pub fn collect_headers(raw: &[(String, Option<String>)]) -> (r: Vec<(String, String)>)
    ensures
        pairs_view(r@) == kept_headers(raw_headers_view(raw@)),
{
    let ghost rv = raw_headers_view(raw@);
    let mut out: Vec<(String, String)> = Vec::new();
    assert(rv.take(0) =~= Seq::<(Seq<char>, Option<Seq<char>>)>::empty());
    assert(pairs_view(out@) =~= Seq::<(Seq<char>, Seq<char>)>::empty());
    for i in 0..raw.len()
        invariant
            rv == raw_headers_view(raw@),
            pairs_view(out@) == kept_headers(rv.take(i as int)),
    {
        assert(rv.take(i + 1).drop_last() =~= rv.take(i as int));
        assert(rv.take(i + 1).last() == rv[i as int]);
        let key = to_lowercase(raw[i].0.as_str());
        if !holds_name(&out, key.as_str()) {
            match &raw[i].1 {
                Some(v) => {
                    let ghost before = pairs_view(out@);
                    let ghost kv = (key@, v@);
                    out.push((key, v.clone()));
                    assert(pairs_view(out@) =~= before.push(kv));
                },
                None => {},
            }
        }
    }
    assert(rv.take(rv.len() as int) =~= rv);
    out
}

/// The response handed on for what was received: the kept headers, the body
/// with its length in bytes, the time taken and the final URL.
pub fn received_response(
    status: u16,
    raw_headers: &[(String, Option<String>)],
    body: String,
    elapsed: TimeSpan,
    final_url: String,
) -> (r: HttpResponse)
    ensures
        r.status == status,
        r@.headers == kept_headers(raw_headers_view(raw_headers@)),
        r.body == body,
        r.content_length == (utf8_len(body@) as usize) as u64,
        r.response_time == elapsed,
        r.final_url == final_url,
{
    let headers = collect_headers(raw_headers);
    let n = byte_len(body.as_str());
    HttpResponse::new(status, headers, body, n as u64, elapsed, final_url)
}

/// The pause before retry number `attempt + 1`: `100 * 2^attempt`
/// milliseconds.
pub fn retry_delay(attempt: u32) -> (d: TimeSpan)
    requires
        attempt <= 57,
    ensures
        d.nanos == 100 * pow2(attempt as nat) * 1_000_000,
{
    proof {
        lemma2_to64();
        lemma2_to64_rest();
    }
    let mut p: u64 = 1;
    let mut i: u32 = 0;
    while i < attempt
        invariant
            i <= attempt <= 57,
            p as nat == pow2(i as nat),
            pow2(56) == 0x100_0000_0000_0000,
        decreases attempt - i,
    {
        proof {
            lemma_pow2_unfold((i + 1) as nat);
            if i < 56 {
                lemma_pow2_strictly_increases(i as nat, 56);
            }
        }
        p = p * 2;
        i = i + 1;
    }
    proof {
        lemma_pow2_unfold(57);
        if attempt < 57 {
            lemma_pow2_strictly_increases(attempt as nat, 57);
        }
    }
    TimeSpan::from_millis(100 * p)
}

/// What follows a failed attempt numbered `attempt` (from 0) with
/// `max_retries` retries allowed: another attempt after a pause while
/// `attempt < max_retries`, otherwise none.
pub fn next_retry(attempt: u32, max_retries: u32) -> (r: Option<TimeSpan>)
    requires
        attempt < max_retries ==> attempt <= 57,
    ensures
        r is Some <==> attempt < max_retries,
        r matches Some(d) ==> d.nanos == 100 * pow2(attempt as nat) * 1_000_000,
{
    if attempt < max_retries {
        Some(retry_delay(attempt))
    } else {
        None
    }
}

} // verus!
