//! Where the vault lies, and the template for new notes.
use vstd::prelude::*;
use vstd::string::StringExecFns;

use crate::template::Template;
use crate::text::chars_of;

verus! {

/// `path` taken relative to `base`: an absolute path stands for itself,
/// otherwise the two are joined with one `/`.
pub open spec fn joined(base: Seq<char>, path: Seq<char>) -> Seq<char> {
    if path.len() > 0 && path[0] == '/' {
        path
    } else if base.len() == 0 || base.last() == '/' {
        base + path
    } else {
        base + seq!['/'] + path
    }
}

#[derive(Clone, Debug, Default)]
pub struct Config {
    /// Target vault location
    pub vault: String,
    /// Templating for new idea notes
    pub template: Template,
}

impl Config {
    /// The location of a note given by its path inside the vault.
    pub fn get_full_path(&self, note_path: &str) -> (r: String)
        ensures
            r@ == joined(self.vault@, note_path@),
    {
        let note = chars_of(note_path);
        if note.len() > 0 && note[0] == '/' {
            return note_path.to_owned();
        }
        let base = chars_of(self.vault.as_str());
        if base.len() == 0 || base[base.len() - 1] == '/' {
            self.vault.clone().concat(note_path)
        } else {
            proof {
                reveal_strlit("/");
            }
            let with_sep = self.vault.clone().concat("/");
            with_sep.concat(note_path)
        }
    }
}

} // verus!
