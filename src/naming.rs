//! File names of new notes and daily notes, from the local date and time.
use vstd::prelude::*;
use vstd::string::StringExecFns;

use crate::text::string_from;

verus! {

/// A local date and time as plain numbers; the year is written with four
/// digits, the other fields with two.
#[derive(Clone, Copy, Debug, PartialEq, Eq)]
pub struct Timestamp {
    pub year: u32,
    pub month: u32,
    pub day: u32,
    pub hour: u32,
    pub minute: u32,
    pub second: u32,
}

/// The decimal digit for a value below 10.
pub open spec fn digit_char(d: nat) -> char {
    (48 + d) as char
}

/// The last `width` decimal digits of `n`, with leading zeros.
pub open spec fn padded(n: nat, width: nat) -> Seq<char>
    decreases width,
{
    if width == 0 {
        Seq::empty()
    } else {
        padded(n / 10, (width - 1) as nat) + seq![digit_char(n % 10)]
    }
}

impl Timestamp {
    /// `YYYY-MM-DD`.
    pub open spec fn date_text(&self) -> Seq<char> {
        padded(self.year as nat, 4) + seq!['-'] + padded(self.month as nat, 2) + seq!['-'] + padded(
            self.day as nat,
            2,
        )
    }

    /// `YYYY_MM_DD_hh_mm_ss`.
    pub open spec fn stamp_text(&self) -> Seq<char> {
        padded(self.year as nat, 4) + seq!['_'] + padded(self.month as nat, 2) + seq!['_'] + padded(
            self.day as nat,
            2,
        ) + seq!['_'] + padded(self.hour as nat, 2) + seq!['_'] + padded(self.minute as nat, 2)
            + seq!['_'] + padded(self.second as nat, 2)
    }
}

/// Appends the last `width` decimal digits of `n` to `out`.
fn push_padded(out: &mut Vec<char>, n: u32, width: usize)
    requires
        width <= 10,
    ensures
        final(out)@ == old(out)@ + padded(n as nat, width as nat),
    decreases width,
{
    if width == 0 {
        assert(old(out)@ + padded(n as nat, 0) =~= old(out)@);
        return;
    }
    push_padded(out, n / 10, width - 1);
    let d = (n % 10) as u8;
    let c = (48u8 + d) as char;
    assert(c == digit_char((n % 10) as nat));
    out.push(c);
    assert(final(out)@ =~= old(out)@ + padded(n as nat, width as nat));
}

impl Timestamp {
    /// The date as `YYYY-MM-DD`.
    pub fn date(&self) -> (r: String)
        ensures
            r@ == self.date_text(),
    {
        let mut out: Vec<char> = Vec::new();
        push_padded(&mut out, self.year, 4);
        out.push('-');
        push_padded(&mut out, self.month, 2);
        out.push('-');
        push_padded(&mut out, self.day, 2);
        assert(out@ =~= self.date_text());
        string_from(&out, 0, out.len())
    }

    /// The date and time as `YYYY_MM_DD_hh_mm_ss`.
    pub fn stamp(&self) -> (r: String)
        ensures
            r@ == self.stamp_text(),
    {
        let mut out: Vec<char> = Vec::new();
        push_padded(&mut out, self.year, 4);
        out.push('_');
        push_padded(&mut out, self.month, 2);
        out.push('_');
        push_padded(&mut out, self.day, 2);
        out.push('_');
        push_padded(&mut out, self.hour, 2);
        out.push('_');
        push_padded(&mut out, self.minute, 2);
        out.push('_');
        push_padded(&mut out, self.second, 2);
        assert(out@ =~= self.stamp_text());
        string_from(&out, 0, out.len())
    }
}

/// The file name of a new note: `Note_` and the stamp, with extension `.md`.
pub fn note_title(stamp: &str) -> (r: String)
    ensures
        r@ == "Note_"@ + stamp@ + ".md"@,
{
    String::from_str("Note_").concat(stamp).concat(".md")
}

/// The file name of a daily note: the date, with extension `.md`.
pub fn daily_note_name(date: &str) -> (r: String)
    ensures
        r@ == date@ + ".md"@,
{
    date.to_owned().concat(".md")
}

} // verus!
