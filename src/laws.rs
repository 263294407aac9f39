//! Laws of aggregation: the order in which results arrive does not matter.
use vstd::multiset::Multiset;
use vstd::prelude::*;

use crate::extract::{extraction, link_count_of, tags_of, word_count_of};
use crate::vault::{merged, recorded, scanned, Tally};

verus! {

broadcast use vstd::multiset::group_multiset_axioms, vstd::seq_lib::group_to_multiset_ensures;

/// Merging two results into the same totals gives the same totals in either order.
pub proof fn lemma_merge_commutative(t: Tally, a: Tally, b: Tally)
    ensures
        t.plus(a).plus(b) == t.plus(b).plus(a),
{
    assert(t.plus(a).plus(b).tags =~= t.plus(b).plus(a).tags);
}

/// Merging `b` and then `c` into `a` is merging their sum into `a`.
pub proof fn lemma_merge_associative(a: Tally, b: Tally, c: Tally)
    ensures
        a.plus(b).plus(c) == a.plus(b.plus(c)),
{
    assert(a.plus(b).plus(c).tags =~= a.plus(b.plus(c)).tags);
}

/// Taking result `j` out of the sequence and merging it last changes nothing.
proof fn lemma_merge_one_last(t: Tally, rs: Seq<Tally>, j: int)
    requires
        0 <= j < rs.len(),
    ensures
        merged(t, rs) == merged(t, rs.remove(j)).plus(rs[j]),
    decreases rs.len(),
{
    if j == rs.len() - 1 {
        assert(rs.remove(j) =~= rs.drop_last());
    } else {
        let d = rs.drop_last();
        lemma_merge_one_last(t, d, j);
        assert(rs.remove(j).drop_last() =~= d.remove(j));
        assert(rs.remove(j).last() == rs.last());
        lemma_merge_commutative(merged(t, d.remove(j)), rs[j], rs.last());
    }
}

/// Merging the same results in any order yields the same totals.
pub proof fn lemma_merge_any_order(t: Tally, rs1: Seq<Tally>, rs2: Seq<Tally>)
    requires
        rs1.to_multiset() =~= rs2.to_multiset(),
    ensures
        merged(t, rs1) == merged(t, rs2),
    decreases rs1.len(),
{
    if rs1.len() == 0 {
        vstd::seq_lib::to_multiset_len(rs1);
        vstd::seq_lib::to_multiset_len(rs2);
    } else {
        let x = rs1.last();
        let d = rs1.drop_last();
        assert(rs1 =~= d.push(x));
        assert(rs2.to_multiset().count(x) > 0);
        assert(rs2.contains(x));
        let j = choose|j: int| 0 <= j < rs2.len() && rs2[j] == x;
        assert(rs2.remove(j).to_multiset() =~= d.to_multiset());
        lemma_merge_any_order(t, d, rs2.remove(j));
        lemma_merge_one_last(t, rs2, j);
    }
}

/// The occurrences of a tag in two merged documents add up.
pub proof fn lemma_tag_counts_add(t: Tally, d1: Seq<char>, d2: Seq<char>, k: Seq<char>)
    ensures
        t.plus(extraction(d1)).plus(extraction(d2)).tags.count(k) == t.tags.count(k)
            + extraction(d1).tags.count(k) + extraction(d2).tags.count(k),
{
}

/// Recording two documents gives the same report in either order.
proof fn lemma_record_commutative(r: (Tally, nat), a: Option<Tally>, b: Option<Tally>)
    ensures
        recorded(recorded(r, a), b) == recorded(recorded(r, b), a),
{
    if a is Some && b is Some {
        lemma_merge_commutative(r.0, a->0, b->0);
    }
}

/// What a scan records for one document.
pub open spec fn outcome_of(doc: Option<Seq<char>>) -> Option<Tally> {
    match doc {
        Some(text) => Some(extraction(text)),
        None => None,
    }
}

proof fn lemma_scan_one_last(r: (Tally, nat), docs: Seq<Option<Seq<char>>>, j: int)
    requires
        0 <= j < docs.len(),
    ensures
        scanned(r, docs) == recorded(scanned(r, docs.remove(j)), outcome_of(docs[j])),
    decreases docs.len(),
{
    if j == docs.len() - 1 {
        assert(docs.remove(j) =~= docs.drop_last());
    } else {
        let d = docs.drop_last();
        lemma_scan_one_last(r, d, j);
        assert(docs.remove(j).drop_last() =~= d.remove(j));
        assert(docs.remove(j).last() == docs.last());
        lemma_record_commutative(scanned(r, d.remove(j)), outcome_of(docs[j]), outcome_of(docs.last()));
    }
}

/// Scanning the same documents again, in whatever order the walk yields
/// them, gives the same totals and the same number of failures.
pub proof fn lemma_rescan_same_report(
    r: (Tally, nat),
    docs1: Seq<Option<Seq<char>>>,
    docs2: Seq<Option<Seq<char>>>,
)
    requires
        docs1.to_multiset() =~= docs2.to_multiset(),
    ensures
        scanned(r, docs1) == scanned(r, docs2),
    decreases docs1.len(),
{
    if docs1.len() == 0 {
        vstd::seq_lib::to_multiset_len(docs1);
        vstd::seq_lib::to_multiset_len(docs2);
    } else {
        let x = docs1.last();
        let d = docs1.drop_last();
        assert(docs1 =~= d.push(x));
        assert(docs2.to_multiset().count(x) > 0);
        assert(docs2.contains(x));
        let j = choose|j: int| 0 <= j < docs2.len() && docs2[j] == x;
        assert(docs2.remove(j).to_multiset() =~= d.to_multiset());
        lemma_rescan_same_report(r, d, docs2.remove(j));
        lemma_scan_one_last(r, docs2, j);
    }
}

/// The words of the documents that were read.
pub open spec fn words_in_docs(docs: Seq<Option<Seq<char>>>) -> nat
    decreases docs.len(),
{
    if docs.len() == 0 {
        0
    } else {
        words_in_docs(docs.drop_last()) + match docs.last() {
            Some(text) => word_count_of(text),
            None => 0,
        }
    }
}

/// The links of the documents that were read.
pub open spec fn links_in_docs(docs: Seq<Option<Seq<char>>>) -> nat
    decreases docs.len(),
{
    if docs.len() == 0 {
        0
    } else {
        links_in_docs(docs.drop_last()) + match docs.last() {
            Some(text) => link_count_of(text),
            None => 0,
        }
    }
}

/// The tag occurrences of the documents that were read.
pub open spec fn tags_in_docs(docs: Seq<Option<Seq<char>>>) -> Multiset<Seq<char>>
    decreases docs.len(),
{
    if docs.len() == 0 {
        Multiset::empty()
    } else {
        tags_in_docs(docs.drop_last()).add(
            match docs.last() {
                Some(text) => tags_of(text).to_multiset(),
                None => Multiset::empty(),
            },
        )
    }
}

/// The number of documents that could not be read.
pub open spec fn unreadable(docs: Seq<Option<Seq<char>>>) -> nat
    decreases docs.len(),
{
    if docs.len() == 0 {
        0
    } else {
        unreadable(docs.drop_last()) + if docs.last() is None {
            1nat
        } else {
            0nat
        }
    }
}

/// A scan adds to the totals the words, the links and the tag occurrences of
/// every document it read, each tag occurrence to the count of that tag, and
/// counts every document it could not read as one failure.
pub proof fn lemma_scan_sums(r: (Tally, nat), docs: Seq<Option<Seq<char>>>)
    ensures
        scanned(r, docs).0.words == r.0.words + words_in_docs(docs),
        scanned(r, docs).0.links == r.0.links + links_in_docs(docs),
        scanned(r, docs).0.tags == r.0.tags.add(tags_in_docs(docs)),
        scanned(r, docs).1 == r.1 + unreadable(docs),
    decreases docs.len(),
{
    if docs.len() == 0 {
        assert(r.0.tags.add(Multiset::empty()) =~= r.0.tags);
    } else {
        lemma_scan_sums(r, docs.drop_last());
        let before = tags_in_docs(docs.drop_last());
        let last = match docs.last() {
            Some(text) => tags_of(text).to_multiset(),
            None => Multiset::empty(),
        };
        assert(r.0.tags.add(before).add(last) =~= r.0.tags.add(before.add(last)));
        if docs.last() is None {
            assert(before.add(Multiset::empty()) =~= before);
        }
    }
}

/// A document that cannot be read changes no total: the scan gives what a
/// scan without it gives, with one more failure.
pub proof fn lemma_unreadable_adds_nothing(r: (Tally, nat), docs: Seq<Option<Seq<char>>>, j: int)
    requires
        0 <= j < docs.len(),
        docs[j] is None,
    ensures
        scanned(r, docs).0 == scanned(r, docs.remove(j)).0,
        scanned(r, docs).1 == scanned(r, docs.remove(j)).1 + 1,
{
    lemma_scan_one_last(r, docs, j);
}

/// A scan that finds no document reports zero totals, no tag and no failure.
pub proof fn lemma_empty_scan(docs: Seq<Option<Seq<char>>>)
    requires
        docs.len() == 0,
    ensures
        scanned((Tally::zero(), 0), docs) == (Tally::zero(), 0nat),
{
}

} // verus!
