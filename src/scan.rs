//! A whole scan: every document's result merged, every unreadable one counted.
use vstd::prelude::*;

use crate::extract::{extract, extraction};
use crate::laws::{lemma_scan_sums, links_in_docs, tags_in_docs, unreadable, words_in_docs};
use crate::vault::{scanned, ScanReport, Tally};

verus! {

broadcast use vstd::multiset::group_multiset_axioms;

/// The texts a scan reads: each document's text, `None` for one that could
/// not be read.
pub open spec fn doc_texts(docs: Seq<Option<String>>) -> Seq<Option<Seq<char>>> {
    docs.map_values(
        |d: Option<String>|
            match d {
                Some(t) => Some(t@),
                None => None,
            },
    )
}

/// Every total of a scan of `docs` fits in `usize`.
pub open spec fn scan_fits(docs: Seq<Option<Seq<char>>>) -> bool {
    &&& words_in_docs(docs) <= usize::MAX
    &&& links_in_docs(docs) <= usize::MAX
    &&& unreadable(docs) <= usize::MAX
    &&& forall|k: Seq<char>| #[trigger] tags_in_docs(docs).count(k) <= usize::MAX
}

/// The sums over the first `i` documents never exceed those over all of them.
proof fn lemma_prefix_sums(docs: Seq<Option<Seq<char>>>, i: int)
    requires
        0 <= i <= docs.len(),
    ensures
        words_in_docs(docs.subrange(0, i)) <= words_in_docs(docs),
        links_in_docs(docs.subrange(0, i)) <= links_in_docs(docs),
        unreadable(docs.subrange(0, i)) <= unreadable(docs),
        forall|k: Seq<char>| #[trigger]
            tags_in_docs(docs.subrange(0, i)).count(k) <= tags_in_docs(docs).count(k),
    decreases docs.len(),
{
    if i == docs.len() {
        assert(docs.subrange(0, i) =~= docs);
    } else {
        let d = docs.drop_last();
        lemma_prefix_sums(d, i);
        assert(d.subrange(0, i) =~= docs.subrange(0, i));
    }
}

impl ScanReport {
    /// Scans the documents in order: merges what each document that was read
    /// holds, and counts each one that could not be read. Returns `None` when
    /// a total would not fit in `usize`.
    pub fn scan(docs: &Vec<Option<String>>) -> (r: Option<ScanReport>)
        ensures
            r is Some <==> scan_fits(doc_texts(docs@)),
            r matches Some(rep) ==> rep.wf() && rep@ == scanned(
                (Tally::zero(), 0),
                doc_texts(docs@),
            ),
    {
        let ghost ds = doc_texts(docs@);
        let ghost start = (Tally::zero(), 0nat);
        let mut report = ScanReport::new();
        let mut i: usize = 0;
        assert(ds.subrange(0, 0) =~= Seq::<Option<Seq<char>>>::empty());
        while i < docs.len()
            invariant
                ds == doc_texts(docs@),
                start == (Tally::zero(), 0nat),
                i <= docs@.len(),
                report.wf(),
                report@ == scanned(start, ds.subrange(0, i as int)),
            decreases docs@.len() - i,
        {
            let outcome = match &docs[i] {
                Some(text) => Some(extract(text.as_str())),
                None => None,
            };
            let ghost seen = outcome;
            let ghost prefix = ds.subrange(0, i + 1);
            assert(prefix.drop_last() =~= ds.subrange(0, i as int));
            assert(prefix.last() == ds[i as int]);
            if !report.record(outcome) {
                proof {
                    lemma_scan_sums(start, prefix);
                    lemma_prefix_sums(ds, i + 1);
                    if let Some(n) = seen {
                        if !(report.stats.total_word_count + n.word_count <= usize::MAX) {
                        } else if !(report.stats.total_link_count + n.link_count <= usize::MAX) {
                        } else {
                            let k = choose|k: Seq<char>|
                                !(#[trigger] report.stats.tags@.count(k) + n.tags@.count(k) <= usize::MAX);
                            lemma_scan_sums(start, prefix.drop_last());
                            assert(report.stats.tags@.count(k) == tags_in_docs(prefix.drop_last()).count(k));
                            assert(prefix.last() matches Some(text) && n.tags@ == extraction(text).tags);
                            assert(tags_in_docs(prefix).count(k) > usize::MAX);
                        }
                    }
                }
                return None;
            }
            i = i + 1;
        }
        proof {
            assert(ds.subrange(0, ds.len() as int) =~= ds);
            lemma_scan_sums(start, ds);
            assert forall|k: Seq<char>| #[trigger] tags_in_docs(ds).count(k) <= usize::MAX by {
                report.stats.tags.lemma_count_bounded(k);
            }
        }
        Some(report)
    }
}

} // verus!
