//! The text of a finding line: its template tag, its severity tag and
//! style, and the extracted values.

use vstd::prelude::*;
use crate::matcher::strings_view;
use crate::scanner::extracted_view;
use crate::text::{chars_of, joined, lowercase, string_of, to_lowercase};

verus! {

/// The colour a severity tag is shown in.
#[derive(Debug, Clone, Copy, PartialEq, Eq, Structural)]
pub enum SeverityColor {
    BrightRed,
    Red,
    BrightYellow,
    BrightGreen,
    BrightBlue,
    White,
}

/// How a severity tag is shown: its colour, and whether it is bold.
pub open spec fn severity_style_of(severity: Seq<char>) -> (SeverityColor, bool) {
    let l = lowercase(severity);
    if l == "critical"@ {
        (SeverityColor::BrightRed, true)
    } else if l == "high"@ {
        (SeverityColor::Red, true)
    } else if l == "medium"@ {
        (SeverityColor::BrightYellow, true)
    } else if l == "low"@ {
        (SeverityColor::BrightGreen, true)
    } else if l == "info"@ {
        (SeverityColor::BrightBlue, true)
    } else {
        (SeverityColor::White, false)
    }
}

/// The severity tag `[severity]`, lowercased, with its colour and weight.
pub fn severity_tag(severity: &str) -> (r: (String, SeverityColor, bool))
    ensures
        r.0@ == "["@ + lowercase(severity@) + "]"@,
        (r.1, r.2) == severity_style_of(severity@),
{
    let l = to_lowercase(severity);
    let mut v = chars_of("[");
    let lc = chars_of(l.as_str());
    v.extend_from_slice(lc.as_slice());
    let close = chars_of("]");
    v.extend_from_slice(close.as_slice());
    let tag = string_of(v.as_slice());
    let ls = l.as_str();
    let (c, b) = if crate::text::str_eq(ls, "critical") {
        (SeverityColor::BrightRed, true)
    } else if crate::text::str_eq(ls, "high") {
        (SeverityColor::Red, true)
    } else if crate::text::str_eq(ls, "medium") {
        (SeverityColor::BrightYellow, true)
    } else if crate::text::str_eq(ls, "low") {
        (SeverityColor::BrightGreen, true)
    } else if crate::text::str_eq(ls, "info") {
        (SeverityColor::BrightBlue, true)
    } else {
        (SeverityColor::White, false)
    };
    (tag, c, b)
}

/// The template tag of a finding: `[id:matcher]`, or `[id]` without a
/// matcher name or with an empty one.
pub open spec fn finding_label_of(template_id: Seq<char>, matcher_name: Option<Seq<char>>) -> Seq<char> {
    match matcher_name {
        Some(m) => if m.len() > 0 {
            "["@ + template_id + ":"@ + m + "]"@
        } else {
            "["@ + template_id + "]"@
        },
        None => "["@ + template_id + "]"@,
    }
}

pub fn finding_label(template_id: &str, matcher_name: Option<&str>) -> (r: String)
    ensures
        r@ == finding_label_of(template_id@, match matcher_name {
            Some(m) => Some(m@),
            None => None,
        }),
{
    let mut v = chars_of("[");
    let id = chars_of(template_id);
    v.extend_from_slice(id.as_slice());
    match matcher_name {
        Some(m) => {
            let mc = chars_of(m);
            if mc.len() > 0 {
                let colon = chars_of(":");
                v.extend_from_slice(colon.as_slice());
                v.extend_from_slice(mc.as_slice());
            }
        },
        None => {},
    }
    let close = chars_of("]");
    v.extend_from_slice(close.as_slice());
    string_of(v.as_slice())
}

/// One `[key="v1,v2"]` part per extracted entry.
pub open spec fn extracted_parts(d: Seq<(Seq<char>, Seq<Seq<char>>)>) -> Seq<Seq<char>> {
    d.map_values(|e: (Seq<char>, Seq<Seq<char>>)| "["@ + e.0 + "=\""@ + joined(e.1, ","@) + "\"]"@)
}

/// The extracted values of a finding: its parts joined by spaces.
pub fn extracted_summary(extracted: &[(String, Vec<String>)]) -> (r: String)
    ensures
        r@ == joined(extracted_parts(extracted_view(extracted@)), " "@),
{
    let ghost ps = extracted_parts(extracted_view(extracted@));
    let mut out: Vec<char> = Vec::new();
    assert(ps.take(0) =~= Seq::<Seq<char>>::empty());
    for i in 0..extracted.len()
        invariant
            ps == extracted_parts(extracted_view(extracted@)),
            ps.len() == extracted@.len(),
            out@ == joined(ps.take(i as int), " "@),
    {
        assert(ps.take(i + 1).drop_last() =~= ps.take(i as int));
        if i > 0 {
            let sp = chars_of(" ");
            out.extend_from_slice(sp.as_slice());
        } else {
            assert(ps.take(1) =~= seq![ps[0]]);
        }
        let ghost mid = out@;
        let mut part = chars_of("[");
        let k = chars_of(extracted[i].0.as_str());
        part.extend_from_slice(k.as_slice());
        let eq = chars_of("=\"");
        part.extend_from_slice(eq.as_slice());
        let vs = &extracted[i].1;
        let ghost vv = strings_view(vs@);
        let ghost pstart = part@;
        assert(vv.take(0) =~= Seq::<Seq<char>>::empty());
        for j in 0..vs.len()
            invariant
                vv == strings_view(vs@),
                part@ == pstart + joined(vv.take(j as int), ","@),
        {
            assert(vv.take(j + 1).drop_last() =~= vv.take(j as int));
            if j > 0 {
                let comma = chars_of(",");
                part.extend_from_slice(comma.as_slice());
            } else {
                assert(vv.take(1) =~= seq![vv[0]]);
            }
            let x = chars_of(vs[j].as_str());
            part.extend_from_slice(x.as_slice());
            assert(part@ =~= pstart + joined(vv.take(j + 1), ","@));
        }
        assert(vv.take(vv.len() as int) =~= vv);
        let end = chars_of("\"]");
        part.extend_from_slice(end.as_slice());
        assert(part@ == ps[i as int]);
        out.extend_from_slice(part.as_slice());
        assert(out@ =~= joined(ps.take(i + 1), " "@));
    }
    assert(ps.take(ps.len() as int) =~= ps);
    string_of(out.as_slice())
}

} // verus!
