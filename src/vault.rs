//! Per-document results, vault totals, and the aggregation laws.
use vstd::multiset::Multiset;
use vstd::prelude::*;

use crate::extract::extraction;
use crate::tags::{is_top_ranking, TagMap};

verus! {

broadcast use vstd::multiset::group_multiset_axioms, vstd::seq_lib::group_to_multiset_ensures;

/// Counts as plain numbers: words, links, and the occurrences of each tag.
pub struct Tally {
    pub words: nat,
    pub links: nat,
    pub tags: Multiset<Seq<char>>,
}

impl Tally {
    /// Nothing counted yet.
    pub open spec fn zero() -> Tally {
        Tally { words: 0, links: 0, tags: Multiset::empty() }
    }

    /// Both tallies together: counts add up and tag occurrences join.
    pub open spec fn plus(self, other: Tally) -> Tally {
        Tally {
            words: self.words + other.words,
            links: self.links + other.links,
            tags: self.tags.add(other.tags),
        }
    }
}

/// The totals after merging the results `rs` into `t`, first to last.
pub open spec fn merged(t: Tally, rs: Seq<Tally>) -> Tally
    decreases rs.len(),
{
    if rs.len() == 0 {
        t
    } else {
        merged(t, rs.drop_last()).plus(rs.last())
    }
}

/// What one document contributes.
pub struct NoteStats {
    pub word_count: usize,
    pub link_count: usize,
    pub tags: TagMap,
}

impl View for NoteStats {
    type V = Tally;

    open spec fn view(&self) -> Tally {
        Tally { words: self.word_count as nat, links: self.link_count as nat, tags: self.tags@ }
    }
}

impl NoteStats {
    pub open spec fn wf(&self) -> bool {
        self.tags.wf()
    }
}

/// The running totals of a vault.
pub struct VaultStats {
    pub total_word_count: usize,
    pub total_link_count: usize,
    pub tags: TagMap,
}

impl View for VaultStats {
    type V = Tally;

    open spec fn view(&self) -> Tally {
        Tally {
            words: self.total_word_count as nat,
            links: self.total_link_count as nat,
            tags: self.tags@,
        }
    }
}

impl VaultStats {
    pub open spec fn wf(&self) -> bool {
        self.tags.wf()
    }

    /// Merging `note` keeps every total within `usize`.
    pub open spec fn can_merge(&self, note: &NoteStats) -> bool {
        &&& self.total_word_count + note.word_count <= usize::MAX
        &&& self.total_link_count + note.link_count <= usize::MAX
        &&& forall|k: Seq<char>| #[trigger] self.tags@.count(k) + note.tags@.count(k) <= usize::MAX
    }

    /// Empty totals.
    pub fn new() -> (r: VaultStats)
        ensures
            r.wf(),
            r@ == Tally::zero(),
    {
        VaultStats { total_word_count: 0, total_link_count: 0, tags: TagMap::new() }
    }

    /// Decides `can_merge`.
    pub fn fits(&self, note: &NoteStats) -> (r: bool)
        requires
            self.wf(),
            note.wf(),
        ensures
            r == self.can_merge(note),
    {
        note.word_count <= usize::MAX - self.total_word_count
            && note.link_count <= usize::MAX - self.total_link_count
            && self.tags.fits_with(&note.tags)
    }

    /// Folds one document's result into the totals.
    pub fn merge(&mut self, note: NoteStats)
        requires
            old(self).wf(),
            note.wf(),
            old(self).can_merge(&note),
        ensures
            final(self).wf(),
            final(self)@ == old(self)@.plus(note@),
    {
        self.total_word_count = self.total_word_count + note.word_count;
        self.total_link_count = self.total_link_count + note.link_count;
        self.tags.absorb(&note.tags);
    }

    /// The `take` most frequent tags with their counts, highest count first;
    /// tags with equal counts come in lexicographic order.
    pub fn frequent_tags(&self, take: usize) -> (r: Vec<(String, usize)>)
        requires
            self.wf(),
        ensures
            is_top_ranking(self.tags@, take as nat, r@),
    {
        self.tags.ranked(take)
    }
}

/// Totals and the number of documents that could not be read.
pub struct ScanReport {
    pub stats: VaultStats,
    pub failed: usize,
}

/// The report after one more document: its result merged, or one more failure.
pub open spec fn recorded(r: (Tally, nat), outcome: Option<Tally>) -> (Tally, nat) {
    match outcome {
        Some(t) => (r.0.plus(t), r.1),
        None => (r.0, r.1 + 1),
    }
}

/// The report after a scan reads `docs` in this order; `None` stands for a
/// document that could not be read.
pub open spec fn scanned(r: (Tally, nat), docs: Seq<Option<Seq<char>>>) -> (Tally, nat)
    decreases docs.len(),
{
    if docs.len() == 0 {
        r
    } else {
        recorded(
            scanned(r, docs.drop_last()),
            match docs.last() {
                Some(text) => Some(extraction(text)),
                None => None,
            },
        )
    }
}

impl View for ScanReport {
    type V = (Tally, nat);

    open spec fn view(&self) -> (Tally, nat) {
        (self.stats@, self.failed as nat)
    }
}

impl ScanReport {
    pub open spec fn wf(&self) -> bool {
        self.stats.wf()
    }

    /// Nothing scanned yet.
    pub fn new() -> (r: ScanReport)
        ensures
            r.wf(),
            r@ == (Tally::zero(), 0nat),
    {
        ScanReport { stats: VaultStats::new(), failed: 0 }
    }

    /// Records one document: its result when it was read, `None` when it was
    /// not. Returns false, and records nothing, when a count would overflow.
    pub fn record(&mut self, outcome: Option<NoteStats>) -> (r: bool)
        requires
            old(self).wf(),
            outcome matches Some(n) ==> n.wf(),
        ensures
            final(self).wf(),
            r == match outcome {
                Some(n) => old(self).stats.can_merge(&n),
                None => old(self).failed < usize::MAX,
            },
            r ==> final(self)@ == recorded(
                old(self)@,
                match outcome {
                    Some(n) => Some(n@),
                    None => None,
                },
            ),
            !r ==> final(self)@ == old(self)@,
    {
        match outcome {
            Some(note) => {
                if self.stats.fits(&note) {
                    self.stats.merge(note);
                    true
                } else {
                    false
                }
            },
            None => {
                if self.failed < usize::MAX {
                    self.failed = self.failed + 1;
                    true
                } else {
                    false
                }
            },
        }
    }
}

} // verus!
