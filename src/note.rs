//! Links that open a note in the Obsidian app.
use vstd::prelude::*;
use vstd::string::{StringExecFns, StringSliceAdditionalSpecFns};

verus! {

/// A byte that URL encoding keeps as it is: an ASCII letter or digit, or one
/// of `-`, `.`, `_`, `~`.
pub open spec fn url_safe(b: u8) -> bool {
    (0x30 <= b <= 0x39) || (0x41 <= b <= 0x5A) || (0x61 <= b <= 0x7A) || b == 0x2D || b == 0x2E
        || b == 0x5F || b == 0x7E
}

/// The upper-case hex digit for a value below 16.
pub open spec fn hex_digit(d: u8) -> char {
    if d < 10 {
        (0x30 + d) as char
    } else {
        (0x41 - 10 + d) as char
    }
}

/// URL encoding of bytes: a safe byte stands for itself, any other is `%`
/// and its two hex digits.
pub open spec fn percent_encoded(bs: Seq<u8>) -> Seq<char>
    decreases bs.len(),
{
    if bs.len() == 0 {
        Seq::empty()
    } else {
        let b = bs.last();
        percent_encoded(bs.drop_last()) + if url_safe(b) {
            seq![b as char]
        } else {
            seq!['%', hex_digit(b / 16), hex_digit(b % 16)]
        }
    }
}

/// Relies on `urlencoding::encode`: each byte of the UTF-8 text is kept when it
/// is an ASCII letter, digit, `-`, `.`, `_` or `~`, and is otherwise written as
/// `%` followed by two upper-case hex digits.
#[verifier::external_body]
fn url_encode(s: &str) -> (r: String)
    ensures
        r@ == percent_encoded(s.spec_bytes()),
{
    urlencoding::encode(s).into_owned()
}

/// The `obsidian://` link that opens `file` in the vault named `vault_name`.
pub open spec fn note_link(vault_name: &str, file: &str) -> Seq<char> {
    "obsidian://open?vault="@ + percent_encoded(vault_name.spec_bytes()) + "&file="@
        + percent_encoded(file.spec_bytes())
}

/// Builds the link that opens `file` of the vault `vault_name` in Obsidian.
pub fn note_url(vault_name: &str, file: &str) -> (r: String)
    ensures
        r@ == note_link(vault_name, file),
{
    let prefix = String::from_str("obsidian://open?vault=");
    let with_vault = prefix.concat(url_encode(vault_name).as_str());
    let with_key = with_vault.concat("&file=");
    with_key.concat(url_encode(file).as_str())
}

} // verus!
