//! Templates for new notes: `?time` and `?body` are filled in.
use vstd::prelude::*;

use crate::text::{chars_of, string_from};

verus! {

/// `pat` occurs in `s` at position `i`.
pub open spec fn occurs_at(s: Seq<char>, pat: Seq<char>, i: int) -> bool {
    0 <= i && i + pat.len() <= s.len() && s.subrange(i, i + pat.len()) == pat
}

/// `s` from position `i` on, with every occurrence of a non-empty `pat`
/// replaced by `w`, occurrences taken from left to right without overlap.
pub open spec fn replaced_from(s: Seq<char>, pat: Seq<char>, w: Seq<char>, i: int) -> Seq<char>
    decreases s.len() - i,
{
    if i < 0 || i >= s.len() {
        Seq::empty()
    } else if pat.len() > 0 && occurs_at(s, pat, i) {
        w + replaced_from(s, pat, w, i + pat.len())
    } else {
        seq![s[i]] + replaced_from(s, pat, w, i + 1)
    }
}

/// `s` with every occurrence of `pat` replaced by `w`.
pub open spec fn replaced(s: Seq<char>, pat: Seq<char>, w: Seq<char>) -> Seq<char> {
    replaced_from(s, pat, w, 0)
}

/// A template with `?time` replaced by `date` and then `?body` by `body`.
pub open spec fn rendered(template: Seq<char>, date: Seq<char>, body: Seq<char>) -> Seq<char> {
    replaced(replaced(template, "?time"@, date), "?body"@, body)
}

/// Decides `occurs_at`.
fn matches_at(cs: &Vec<char>, ps: &Vec<char>, i: usize) -> (r: bool)
    requires
        i <= cs@.len(),
    ensures
        r == occurs_at(cs@, ps@, i as int),
{
    if cs.len() - i < ps.len() {
        return false;
    }
    let mut j: usize = 0;
    while j < ps.len()
        invariant
            i + ps@.len() <= cs@.len(),
            cs@.len() <= usize::MAX,
            j <= ps@.len(),
            forall|q: int| 0 <= q < j ==> cs@[i + q] == ps@[q],
        decreases ps@.len() - j,
    {
        if cs[i + j] != ps[j] {
            assert(cs@.subrange(i as int, i + ps@.len())[j as int] != ps@[j as int]);
            return false;
        }
        j = j + 1;
    }
    assert(cs@.subrange(i as int, i + ps@.len()) =~= ps@);
    true
}

/// Replaces every occurrence of `pat` in `s` by `w`, from left to right.
fn replace_all(s: &str, pat: &str, w: &str) -> (r: String)
    requires
        pat@.len() > 0,
    ensures
        r@ == replaced(s@, pat@, w@),
{
    let cs = chars_of(s);
    let ps = chars_of(pat);
    let ws = chars_of(w);
    let mut out: Vec<char> = Vec::new();
    let mut i: usize = 0;
    while i < cs.len()
        invariant
            cs@ == s@,
            ps@ == pat@,
            ws@ == w@,
            ps@.len() > 0,
            i <= cs@.len(),
            replaced(s@, pat@, w@) == out@ + replaced_from(cs@, ps@, ws@, i as int),
        decreases cs@.len() - i,
    {
        if matches_at(&cs, &ps, i) {
            let ghost before = out@;
            let mut k: usize = 0;
            while k < ws.len()
                invariant
                    k <= ws@.len(),
                    out@ == before + ws@.subrange(0, k as int),
                decreases ws@.len() - k,
            {
                out.push(ws[k]);
                k = k + 1;
            }
            assert(ws@.subrange(0, ws@.len() as int) =~= ws@);
            assert(before + (ws@ + replaced_from(cs@, ps@, ws@, i + ps@.len())) =~= out@ + replaced_from(
                cs@,
                ps@,
                ws@,
                i + ps@.len(),
            ));
            i = i + ps.len();
        } else {
            let ghost before = out@;
            out.push(cs[i]);
            assert(before + (seq![cs@[i as int]] + replaced_from(cs@, ps@, ws@, i + 1)) =~= out@
                + replaced_from(cs@, ps@, ws@, i + 1));
            i = i + 1;
        }
    }
    assert(out@ + replaced_from(cs@, ps@, ws@, i as int) =~= out@);
    string_from(&out, 0, out.len())
}

/// The values a template is filled with.
#[derive(Clone, Debug, Default)]
pub struct TemplArgs {
    pub date: String,
    pub body: String,
}

/// The reason a template could not be had.
#[derive(Clone, Copy, Debug, PartialEq, Eq)]
pub enum TemplateError {
    Unreadable,
}

/// A note template: where it was read from, and its text.
#[derive(Clone, Debug, Default)]
pub struct Template {
    pub path: String,
    pub template: String,
}

impl Template {
    /// The text of a new note: the template with `?time` replaced by the date
    /// and then `?body` by the body.
    pub fn render(&self, context: &TemplArgs) -> (r: Result<String, TemplateError>)
        ensures
            r matches Ok(s) && s@ == rendered(self.template@, context.date@, context.body@),
    {
        proof {
            reveal_strlit("?time");
            reveal_strlit("?body");
        }
        let with_date = replace_all(self.template.as_str(), "?time", context.date.as_str());
        let with_body = replace_all(with_date.as_str(), "?body", context.body.as_str());
        Ok(with_body)
    }
}

} // verus!
