//! Where the template cache lives, what its files are called, when a cache
//! file may be used, and the fingerprint of a template directory.

use std::collections::hash_map::DefaultHasher;
use std::hash::Hasher;
use vstd::prelude::*;
use crate::scanner::{seq_lt, str_writes};
use vstd::arithmetic::power::pow;
use vstd::std_specs::hash::DefaultHasherAdditionalSpecFns;
use crate::text::{chars_of, decimal, digit_char, string_of};

verus! {

/// The version cache files are written with; a file of another version is
/// not read.
pub fn cache_version() -> (v: &'static str)
    ensures
        v@ == "0.2.0"@,
{
    "0.2.0"
}

/// `dir` joined with the relative path `name` (std's `Path::join`): a `/`
/// between them unless `dir` is empty or already ends with one.
pub open spec fn path_join(dir: Seq<char>, name: Seq<char>) -> Seq<char> {
    if dir.len() == 0 || dir.last() == '/' {
        dir + name
    } else {
        dir + "/"@ + name
    }
}

pub fn join_path(dir: &str, name: &str) -> (r: String)
    ensures
        r@ == path_join(dir@, name@),
{
    let mut v = chars_of(dir);
    if v.len() > 0 && v[v.len() - 1] != '/' {
        v.push('/');
        proof {
            reveal_strlit("/");
        }
    }
    let n = chars_of(name);
    v.extend_from_slice(n.as_slice());
    string_of(v.as_slice())
}

/// The cache directory: `$XDG_CACHE_HOME/ruclei`, else
/// `$HOME/.cache/ruclei`, else `/tmp/ruclei-cache`.
pub open spec fn cache_dir_of(xdg_cache_home: Option<Seq<char>>, home: Option<Seq<char>>) -> Seq<char> {
    match xdg_cache_home {
        Some(x) => path_join(x, "ruclei"@),
        None => match home {
            Some(h) => path_join(path_join(h, ".cache"@), "ruclei"@),
            None => "/tmp/ruclei-cache"@,
        },
    }
}

pub fn cache_directory(xdg_cache_home: Option<String>, home: Option<String>) -> (r: String)
    ensures
        r@ == cache_dir_of(crate::scanner::opt_view(xdg_cache_home), crate::scanner::opt_view(home)),
{
    match xdg_cache_home {
        Some(x) => join_path(x.as_str(), "ruclei"),
        None => match home {
            Some(h) => {
                let c = join_path(h.as_str(), ".cache");
                join_path(c.as_str(), "ruclei")
            },
            None => "/tmp/ruclei-cache".to_string(),
        },
    }
}

/// The file name of the cache file for a fingerprint.
pub open spec fn cache_file_name(fingerprint: Seq<char>) -> Seq<char> {
    "templates-"@ + fingerprint + ".json"@
}

/// The disk cache of parsed templates.
#[derive(Debug, Clone, PartialEq, Eq)]
pub struct TemplateCache {
    pub cache_dir: String,
}

impl TemplateCache {
    /// The cache in the directory the environment gives (see
    /// `cache_dir_of`).
    pub fn new(xdg_cache_home: Option<String>, home: Option<String>) -> (c: Self)
        ensures
            c.cache_dir@ == cache_dir_of(crate::scanner::opt_view(xdg_cache_home), crate::scanner::opt_view(home)),
    {
        TemplateCache { cache_dir: cache_directory(xdg_cache_home, home) }
    }

    /// The path of the cache file for a fingerprint.
    pub fn cache_path(&self, fingerprint: &str) -> (p: String)
        ensures
            p@ == path_join(self.cache_dir@, cache_file_name(fingerprint@)),
    {
        let mut n = chars_of("templates-");
        let f = chars_of(fingerprint);
        n.extend_from_slice(f.as_slice());
        let e = chars_of(".json");
        n.extend_from_slice(e.as_slice());
        let name = string_of(n.as_slice());
        join_path(self.cache_dir.as_str(), name.as_str())
    }

    /// A cache file may be used when it was written by this version for the
    /// directory's current fingerprint.
    pub fn is_current(&self, version: &str, fingerprint: &str, expected: &str) -> (b: bool)
        ensures
            b == (version@ == "0.2.0"@ && fingerprint@ == expected@),
    {
        crate::text::str_eq(version, cache_version()) && crate::text::str_eq(fingerprint, expected)
    }

    /// Whether a file of this name in the cache directory is a cache file
    /// (its extension is `json`).
    pub fn is_cache_file(&self, file_name: &str) -> (b: bool)
        ensures
            b == (crate::template::parser::extension_of(file_name@) == Some("json"@)),
    {
        match crate::template::parser::file_extension(file_name) {
            Some(e) => crate::text::str_eq(e.as_str(), "json"),
            None => false,
        }
    }
}

/// A template file's stat line: its path, modification time in seconds,
/// and size.
pub open spec fn stats_view(v: Seq<(String, u64, u64)>) -> Seq<(Seq<char>, u64, u64)> {
    v.map_values(|e: (String, u64, u64)| (e.0@, e.1, e.2))
}

/// Index before which `e` goes in `sorted`: before the first entry whose
/// path is greater, so equal paths keep their order.
pub open spec fn stat_position(sorted: Seq<(Seq<char>, u64, u64)>, e: (Seq<char>, u64, u64)) -> int
    decreases sorted.len(),
{
    if sorted.len() == 0 {
        0
    } else if seq_lt(e.0, sorted[0].0) {
        0
    } else {
        1 + stat_position(sorted.drop_first(), e)
    }
}

/// The entries sorted by path, stably.
pub open spec fn sort_stats(es: Seq<(Seq<char>, u64, u64)>) -> Seq<(Seq<char>, u64, u64)>
    decreases es.len(),
{
    if es.len() == 0 {
        es
    } else {
        let s = sort_stats(es.drop_last());
        s.insert(stat_position(s, es.last()), es.last())
    }
}

proof fn lemma_stat_position(sorted: Seq<(Seq<char>, u64, u64)>, e: (Seq<char>, u64, u64))
    ensures
        0 <= stat_position(sorted, e) <= sorted.len(),
    decreases sorted.len(),
{
    if sorted.len() > 0 && !seq_lt(e.0, sorted[0].0) {
        lemma_stat_position(sorted.drop_first(), e);
    }
}

proof fn lemma_sort_stats_len(es: Seq<(Seq<char>, u64, u64)>)
    ensures
        sort_stats(es).len() == es.len(),
    decreases es.len(),
{
    if es.len() > 0 {
        lemma_sort_stats_len(es.drop_last());
        lemma_stat_position(sort_stats(es.drop_last()), es.last());
    }
}

/// The entries sorted by path.
fn sorted_by_path(entries: &Vec<(String, u64, u64)>) -> (out: Vec<(String, u64, u64)>)
    ensures
        stats_view(out@) == sort_stats(stats_view(entries@)),
{
    let ghost es = stats_view(entries@);
    let mut out: Vec<(String, u64, u64)> = Vec::new();
    assert(es.take(0) =~= Seq::<(Seq<char>, u64, u64)>::empty());
    assert(stats_view(out@) =~= Seq::<(Seq<char>, u64, u64)>::empty());
    for i in 0..entries.len()
        invariant
            es == stats_view(entries@),
            stats_view(out@) == sort_stats(es.take(i as int)),
    {
        assert(es.take(i + 1).drop_last() =~= es.take(i as int));
        assert(es.take(i + 1).last() == es[i as int]);
        let ghost sorted = stats_view(out@);
        let ghost e = es[i as int];
        let kc = chars_of(entries[i].0.as_str());
        proof {
            lemma_stat_position(sorted, e);
        }
        let mut pos: usize = 0;
        assert(sorted.skip(0) =~= sorted);
        if out.len() == 0 {
            assert(sorted.skip(0) =~= Seq::<(Seq<char>, u64, u64)>::empty());
        }
        while pos < out.len()
            invariant
                sorted == stats_view(out@),
                pos <= out@.len(),
                kc@ == e.0,
                stat_position(sorted, e) == pos + stat_position(sorted.skip(pos as int), e),
            ensures
                pos <= out@.len(),
                stat_position(sorted, e) == pos,
            decreases out@.len() - pos,
        {
            let oc = chars_of(out[pos].0.as_str());
            assert(sorted.skip(pos as int)[0] == sorted[pos as int]);
            if crate::scanner::chars_lt(kc.as_slice(), oc.as_slice()) {
                assert(stat_position(sorted.skip(pos as int), e) == 0);
                break;
            }
            if pos + 1 == out.len() {
                assert(sorted.skip(pos + 1) =~= Seq::<(Seq<char>, u64, u64)>::empty());
            }
            assert(sorted.skip(pos as int).drop_first() =~= sorted.skip(pos + 1));
            pos = pos + 1;
        }
        out.insert(pos, (entries[i].0.clone(), entries[i].1, entries[i].2));
        assert(stats_view(out@) =~= sorted.insert(pos as int, e));
    }
    assert(es.take(es.len() as int) =~= es);
    out
}

/// The eight bytes of `x`, least significant first.
pub open spec fn u64_le_bytes(x: u64) -> Seq<u8> {
    Seq::new(8, |i: int| ((x as int / pow(256, i as nat)) % 256) as u8)
}

/// The eight bytes of `x` in one byte order: most significant first when
/// `big_endian`, least significant first otherwise.
pub open spec fn u64_bytes(x: u64, big_endian: bool) -> Seq<u8> {
    if big_endian {
        Seq::new(8, |i: int| u64_le_bytes(x)[7 - i])
    } else {
        u64_le_bytes(x)
    }
}

/// Calls std's `Hash::hash` for a `u64` on the hasher, which hands the
/// hasher the value's eight bytes in one write (`Hasher::write_u64`, whose
/// bytes are `u64::to_ne_bytes`). The contract claims that one write of the
/// eight bytes is added, in little- or big-endian order; which order is the
/// machine's is not stated.
#[verifier::external_body]
fn hash_u64(h: &mut DefaultHasher, x: u64)
    ensures
        exists|big_endian: bool| final(h)@ == old(h)@.push(u64_bytes(x, big_endian)),
{
    std::hash::Hash::hash(&x, h)
}

/// The writes that hashing one stat line makes: the path, then the time and
/// the size, each in the byte order given.
pub open spec fn stat_writes(e: (Seq<char>, u64, u64), time_order: bool, size_order: bool) -> Seq<Seq<u8>> {
    str_writes(e.0) + seq![u64_bytes(e.1, time_order), u64_bytes(e.2, size_order)]
}

/// The writes that hashing the stat lines in order makes; `orders` holds the
/// byte order of each number, two per line.
pub open spec fn fingerprint_writes(es: Seq<(Seq<char>, u64, u64)>, orders: Seq<bool>) -> Seq<Seq<u8>>
    decreases es.len(),
{
    if es.len() == 0 {
        Seq::empty()
    } else {
        let n = es.len() - 1;
        fingerprint_writes(es.drop_last(), orders) + stat_writes(es.last(), orders[2 * n], orders[2 * n + 1])
    }
}

proof fn lemma_fingerprint_writes_prefix(es: Seq<(Seq<char>, u64, u64)>, a: Seq<bool>, b: Seq<bool>)
    requires
        a.len() >= 2 * es.len(),
        b.len() >= 2 * es.len(),
        forall|k: int| 0 <= k < 2 * es.len() ==> a[k] == b[k],
    ensures
        fingerprint_writes(es, a) == fingerprint_writes(es, b),
    decreases es.len(),
{
    if es.len() > 0 {
        lemma_fingerprint_writes_prefix(es.drop_last(), a, b);
    }
}

/// The last `n` hexadecimal digits of `d`, lowercase, zero-padded.
pub open spec fn fixed_hex(d: nat, n: nat) -> Seq<char>
    decreases n,
{
    if n == 0 {
        Seq::empty()
    } else {
        fixed_hex(d / 16, (n - 1) as nat).push(digit_char(d % 16))
    }
}

fn fixed_hex_exec(d: u64, n: usize) -> (r: Vec<char>)
    ensures
        r@ == fixed_hex(d as nat, n as nat),
    decreases n,
{
    if n == 0 {
        Vec::new()
    } else {
        let mut v = fixed_hex_exec(d / 16, n - 1);
        let m = d % 16;
        let c = if m < 10 {
            ((m as u8) + 48) as char
        } else {
            ((m as u8) + 87) as char
        };
        assert(c == digit_char((d % 16) as nat));
        v.push(c);
        v
    }
}

/// The fingerprint of a template directory from the stat lines of its
/// template files: none without files; otherwise the `DefaultHasher` digest
/// of the lines sorted by path (each path, then its time and size, the
/// numbers in the machine's byte order), as 16 hexadecimal digits, then `-`
/// and the number of files.
pub fn compute_fingerprint(entries: Vec<(String, u64, u64)>) -> (r: Option<String>)
    ensures
        r is None <==> entries@.len() == 0,
        r matches Some(s) ==> exists|orders: Seq<bool>|
            orders.len() == 2 * entries@.len() && s@ == fixed_hex(
                DefaultHasher::spec_finish(
                    fingerprint_writes(sort_stats(stats_view(entries@)), orders),
                ) as nat,
                16,
            ) + "-"@ + decimal(entries@.len()),
{
    if entries.len() == 0 {
        return None;
    }
    let sorted = sorted_by_path(&entries);
    let ghost sv = stats_view(sorted@);
    proof {
        lemma_sort_stats_len(stats_view(entries@));
    }
    let mut h = DefaultHasher::new();
    let ghost mut orders: Seq<bool> = Seq::empty();
    assert(sv.take(0) =~= Seq::<(Seq<char>, u64, u64)>::empty());
    for i in 0..sorted.len()
        invariant
            sv == stats_view(sorted@),
            orders.len() == 2 * i,
            h@ == fingerprint_writes(sv.take(i as int), orders),
    {
        let ghost before = h@;
        crate::scanner::hash_str(&mut h, sorted[i].0.as_str());
        let ghost mid1 = h@;
        hash_u64(&mut h, sorted[i].1);
        let ghost b1 = choose|b: bool| h@ == mid1.push(u64_bytes(sorted@[i as int].1, b));
        let ghost mid2 = h@;
        hash_u64(&mut h, sorted[i].2);
        let ghost b2 = choose|b: bool| h@ == mid2.push(u64_bytes(sorted@[i as int].2, b));
        proof {
            let old_orders = orders;
            orders = orders.push(b1).push(b2);
            lemma_fingerprint_writes_prefix(sv.take(i as int), old_orders, orders);
            let t = sv.take(i + 1);
            assert(t.drop_last() =~= sv.take(i as int));
            assert(t.last() == sv[i as int]);
            assert(sv[i as int] == (sorted@[i as int].0@, sorted@[i as int].1, sorted@[i as int].2));
            assert(orders[2 * i] == b1 && orders[2 * i + 1] == b2);
            assert(h@ =~= fingerprint_writes(sv.take(i as int), orders) + stat_writes(sv[i as int], b1, b2));
        }
    }
    assert(sv.take(sv.len() as int) =~= sv);
    let d = h.finish();
    let mut out = fixed_hex_exec(d, 16);
    out.push('-');
    let ghost mid = out@;
    let count = crate::text::decimal_chars(entries.len() as u64);
    out.extend_from_slice(count.as_slice());
    proof {
        reveal_strlit("-");
    }
    assert(out@ =~= fixed_hex(d as nat, 16) + "-"@ + decimal(entries@.len()));
    assert(orders.len() == 2 * entries@.len());
    Some(string_of(out.as_slice()))
}

} // verus!
