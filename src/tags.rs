//! Occurrence counts per tag, kept as a list of distinct tags with positive counts.
use vstd::multiset::Multiset;
use vstd::prelude::*;

use crate::text::{
    chars_of, lemma_lex_total, lemma_lex_transitive, lex_less, lex_less_chars,
};

verus! {

broadcast use vstd::multiset::group_multiset_axioms;

/// `n` occurrences of the tag `k`.
pub open spec fn copies(k: Seq<char>, n: nat) -> Multiset<Seq<char>> {
    Multiset::from_map(map![k => n])
}

/// The occurrences recorded by a list of (tag, count) entries.
pub open spec fn entries_view(es: Seq<(String, usize)>) -> Multiset<Seq<char>>
    decreases es.len(),
{
    if es.len() == 0 {
        Multiset::empty()
    } else {
        entries_view(es.drop_last()).add(copies(es.last().0@, es.last().1 as nat))
    }
}

/// Whether some entry of `es` is for the tag `k`.
pub open spec fn has_key(es: Seq<(String, usize)>, k: Seq<char>) -> bool {
    exists|i: int| 0 <= i < es.len() && #[trigger] es[i].0@ == k
}

/// Distinct tags, each with a positive count.
pub open spec fn entries_wf(es: Seq<(String, usize)>) -> bool {
    &&& forall|i: int, j: int| 0 <= i < j < es.len() ==> #[trigger] es[i].0@ != #[trigger] es[j].0@
    &&& forall|i: int| 0 <= i < es.len() ==> #[trigger] es[i].1 > 0
}

pub proof fn lemma_copies_count(k: Seq<char>, n: nat, v: Seq<char>)
    ensures
        copies(k, n).count(v) == if v == k { n } else { 0 },
{
    assert(map![k => n].dom().finite());
    if v == k {
        assert(map![k => n].dom().contains(v));
    } else {
        assert(!map![k => n].dom().contains(v));
    }
}

/// The count of a tag absent from the entries is zero.
pub proof fn lemma_absent_count(es: Seq<(String, usize)>, v: Seq<char>)
    requires
        !has_key(es, v),
    ensures
        entries_view(es).count(v) == 0,
    decreases es.len(),
{
    if es.len() > 0 {
        let d = es.drop_last();
        assert(!has_key(d, v)) by {
            if has_key(d, v) {
                let i = choose|i: int| 0 <= i < d.len() && #[trigger] d[i].0@ == v;
                assert(es[i].0@ == v);
            }
        }
        lemma_absent_count(d, v);
        assert(es[es.len() - 1].0@ != v);
        lemma_copies_count(es.last().0@, es.last().1 as nat, v);
    }
}

/// With distinct tags, the count of the tag of entry `i` is that entry's count.
pub proof fn lemma_entry_count(es: Seq<(String, usize)>, i: int)
    requires
        entries_wf(es),
        0 <= i < es.len(),
    ensures
        entries_view(es).count(es[i].0@) == es[i].1,
    decreases es.len(),
{
    let d = es.drop_last();
    let last = es.len() - 1;
    lemma_copies_count(es.last().0@, es.last().1 as nat, es[i].0@);
    if i == last {
        assert(!has_key(d, es[i].0@)) by {
            if has_key(d, es[i].0@) {
                let j = choose|j: int| 0 <= j < d.len() && #[trigger] d[j].0@ == es[i].0@;
                assert(es[j].0@ == es[last].0@);
            }
        }
        lemma_absent_count(d, es[i].0@);
    } else {
        assert(es[last].0@ != es[i].0@);
        lemma_entry_count(d, i);
    }
}

/// A tag with a positive count has an entry.
pub proof fn lemma_counted_has_key(es: Seq<(String, usize)>, v: Seq<char>)
    requires
        entries_view(es).count(v) > 0,
    ensures
        has_key(es, v),
{
    if !has_key(es, v) {
        lemma_absent_count(es, v);
    }
}

/// Replacing the count of entry `i` changes the count of its tag alone.
pub proof fn lemma_update_entry(es: Seq<(String, usize)>, i: int, e: (String, usize))
    requires
        0 <= i < es.len(),
        e.0@ == es[i].0@,
        es[i].1 <= e.1,
    ensures
        entries_view(es.update(i, e)) =~= entries_view(es).add(copies(e.0@, (e.1 - es[i].1) as nat)),
    decreases es.len(),
{
    let u = es.update(i, e);
    let last = es.len() - 1;
    let extra = copies(e.0@, (e.1 - es[i].1) as nat);
    if i == last {
        assert(u.drop_last() =~= es.drop_last());
        assert forall|v: Seq<char>| #[trigger]
            entries_view(u).count(v) == entries_view(es).add(extra).count(v) by {
            lemma_copies_count(e.0@, e.1 as nat, v);
            lemma_copies_count(es[i].0@, es[i].1 as nat, v);
            lemma_copies_count(e.0@, (e.1 - es[i].1) as nat, v);
        }
    } else {
        assert(u.drop_last() =~= es.drop_last().update(i, e));
        lemma_update_entry(es.drop_last(), i, e);
        assert(u.last() == es.last());
    }
}

/// The ranking key of an entry: its tag and its count.
pub open spec fn entry_key(e: (String, usize)) -> (Seq<char>, nat) {
    (e.0@, e.1 as nat)
}

/// In a ranking, `a` comes before `b`: a higher count first, and for equal
/// counts the tag that is first in lexicographic order.
pub open spec fn ranks_before(a: (Seq<char>, nat), b: (Seq<char>, nat)) -> bool {
    a.1 > b.1 || (a.1 == b.1 && lex_less(a.0, b.0))
}

/// Whether the list `r` has an entry for the tag `k`.
pub open spec fn listed(r: Seq<(String, usize)>, k: Seq<char>) -> bool {
    exists|i: int| 0 <= i < r.len() && #[trigger] r[i].0@ == k
}

/// `r` lists the tags of `m` with their counts, best ranked first, and stops
/// after `n` entries: every tag left out ranks below every tag listed.
pub open spec fn is_top_ranking(m: Multiset<Seq<char>>, n: nat, r: Seq<(String, usize)>) -> bool {
    &&& r.len() <= n
    &&& forall|i: int| 0 <= i < r.len() ==> #[trigger] r[i].1 > 0 && m.count(r[i].0@) == r[i].1
    &&& forall|i: int, j: int|
        0 <= i < j < r.len() ==> ranks_before(entry_key(#[trigger] r[i]), entry_key(#[trigger] r[j]))
    &&& forall|k: Seq<char>|
        m.count(k) > 0 && !listed(r, k) ==> r.len() == n && forall|i: int|
            0 <= i < r.len() ==> ranks_before(entry_key(#[trigger] r[i]), (k, m.count(k)))
}

/// Each entry of `s` ranks before every later one.
pub open spec fn in_rank_order(s: Seq<(String, usize)>) -> bool {
    forall|a: int, b: int|
        0 <= a < b < s.len() ==> ranks_before(entry_key(#[trigger] s[a]), entry_key(#[trigger] s[b]))
}

pub proof fn lemma_ranks_transitive(a: (Seq<char>, nat), b: (Seq<char>, nat), c: (Seq<char>, nat))
    requires
        ranks_before(a, b),
        ranks_before(b, c),
    ensures
        ranks_before(a, c),
{
    if a.1 == b.1 && b.1 == c.1 {
        lemma_lex_transitive(a.0, b.0, c.0);
    }
}

pub proof fn lemma_ranks_total(a: (Seq<char>, nat), b: (Seq<char>, nat))
    requires
        a.0 != b.0,
    ensures
        ranks_before(a, b) || ranks_before(b, a),
{
    lemma_lex_total(a.0, b.0);
}

/// Decides `ranks_before` on two entries.
fn ranks_first(a: &(String, usize), b: &(String, usize)) -> (r: bool)
    ensures
        r == ranks_before(entry_key(*a), entry_key(*b)),
{
    if a.1 != b.1 {
        a.1 > b.1
    } else {
        let ca = chars_of(a.0.as_str());
        let cb = chars_of(b.0.as_str());
        lex_less_chars(&ca, &cb)
    }
}

/// The occurrences of each tag. Its view is the multiset of tag occurrences;
/// it is kept as one entry per distinct tag with a positive count.
pub struct TagMap {
    entries: Vec<(String, usize)>,
}

impl View for TagMap {
    type V = Multiset<Seq<char>>;

    closed spec fn view(&self) -> Multiset<Seq<char>> {
        entries_view(self.entries@)
    }
}

impl TagMap {
    /// Tags are distinct and each count is positive.
    pub closed spec fn wf(&self) -> bool {
        entries_wf(self.entries@)
    }

    /// An empty map.
    pub fn new() -> (r: TagMap)
        ensures
            r.wf(),
            r@ =~= Multiset::empty(),
    {
        TagMap { entries: Vec::new() }
    }

    /// The number of distinct tags.
    pub fn len(&self) -> (r: usize)
        requires
            self.wf(),
        ensures
            r == self@.dom().len(),
    {
        proof {
            self.lemma_dom();
        }
        self.entries.len()
    }

    proof fn lemma_dom(&self)
        requires
            entries_wf(self.entries@),
        ensures
            self@.dom() =~= self.entries@.map_values(|e: (String, usize)| e.0@).to_set(),
            self@.dom().len() == self.entries@.len(),
    {
        let es = self.entries@;
        let keys = es.map_values(|e: (String, usize)| e.0@);
        assert forall|v: Seq<char>| self@.dom().contains(v) <==> keys.to_set().contains(v) by {
            if self@.count(v) > 0 {
                lemma_counted_has_key(es, v);
                let i = choose|i: int| 0 <= i < es.len() && #[trigger] es[i].0@ == v;
                assert(keys[i] == v);
            }
            if keys.to_set().contains(v) {
                let i = choose|i: int| 0 <= i < keys.len() && keys[i] == v;
                lemma_entry_count(es, i);
            }
        }
        assert(keys.no_duplicates()) by {
            assert forall|i: int, j: int| 0 <= i < keys.len() && 0 <= j < keys.len() && i != j
                implies keys[i] != keys[j] by {
                if i < j {
                    assert(es[i].0@ != es[j].0@);
                } else {
                    assert(es[j].0@ != es[i].0@);
                }
            }
        }
        keys.unique_seq_to_set();
    }

    /// The count of `tag`, zero when it does not occur.
    pub fn get(&self, tag: &String) -> (r: usize)
        requires
            self.wf(),
        ensures
            r == self@.count(tag@),
    {
        let mut i: usize = 0;
        while i < self.entries.len()
            invariant
                entries_wf(self.entries@),
                i <= self.entries@.len(),
                forall|j: int| 0 <= j < i ==> #[trigger] self.entries@[j].0@ != tag@,
            decreases self.entries@.len() - i,
        {
            if self.entries[i].0 == *tag {
                proof {
                    lemma_entry_count(self.entries@, i as int);
                }
                return self.entries[i].1;
            }
            i = i + 1;
        }
        proof {
            lemma_absent_count(self.entries@, tag@);
        }
        0
    }

    /// Adds `n` occurrences of `tag`, creating its entry when it is new.
    pub fn add(&mut self, tag: String, n: usize)
        requires
            old(self).wf(),
            old(self)@.count(tag@) + n <= usize::MAX,
        ensures
            final(self).wf(),
            final(self)@ =~= old(self)@.add(copies(tag@, n as nat)),
    {
        proof {
            lemma_copies_count(tag@, n as nat, tag@);
        }
        if n == 0 {
            assert forall|v: Seq<char>| #[trigger] copies(tag@, 0).count(v) == 0 by {
                lemma_copies_count(tag@, 0, v);
            }
            return;
        }
        let mut i: usize = 0;
        while i < self.entries.len()
            invariant
                self.entries@ == old(self).entries@,
                old(self)@.count(tag@) + n <= usize::MAX,
                entries_wf(self.entries@),
                i <= self.entries@.len(),
                forall|j: int| 0 <= j < i ==> #[trigger] self.entries@[j].0@ != tag@,
            decreases self.entries@.len() - i,
        {
            if self.entries[i].0 == tag {
                let c = self.entries[i].1;
                proof {
                    lemma_entry_count(self.entries@, i as int);
                    lemma_update_entry(self.entries@, i as int, (tag, (c + n) as usize));
                }
                self.entries.set(i, (tag, c + n));
                return;
            }
            i = i + 1;
        }
        proof {
            let es = self.entries@;
            assert(es.push((tag, n)).drop_last() =~= es);
            assert(!has_key(es, tag@));
        }
        self.entries.push((tag, n));
    }

    /// Whether adding `other` keeps every count within `usize`.
    pub fn fits_with(&self, other: &TagMap) -> (r: bool)
        requires
            self.wf(),
            other.wf(),
        ensures
            r == forall|k: Seq<char>| #[trigger] self@.count(k) + other@.count(k) <= usize::MAX,
    {
        let es = &other.entries;
        let mut j: usize = 0;
        while j < es.len()
            invariant
                es@ == other.entries@,
                self.wf(),
                other.wf(),
                j <= es@.len(),
                forall|t: int| 0 <= t < j ==> self@.count(#[trigger] es@[t].0@) + es@[t].1 <= usize::MAX,
            decreases es@.len() - j,
        {
            let have = self.get(&es[j].0);
            if es[j].1 > usize::MAX - have {
                proof {
                    lemma_entry_count(es@, j as int);
                }
                return false;
            }
            j = j + 1;
        }
        proof {
            assert forall|k: Seq<char>| #[trigger] self@.count(k) + other@.count(k) <= usize::MAX by {
                if has_key(es@, k) {
                    let t = choose|t: int| 0 <= t < es@.len() && #[trigger] es@[t].0@ == k;
                    lemma_entry_count(es@, t);
                } else {
                    lemma_absent_count(es@, k);
                    self.lemma_count_bounded(k);
                }
            }
        }
        true
    }

    /// Every count of a well-formed map fits in `usize`.
    pub proof fn lemma_count_bounded(&self, k: Seq<char>)
        requires
            self.wf(),
        ensures
            self@.count(k) <= usize::MAX,
    {
        if has_key(self.entries@, k) {
            let t = choose|t: int| 0 <= t < self.entries@.len() && #[trigger] self.entries@[t].0@ == k;
            lemma_entry_count(self.entries@, t);
        } else {
            lemma_absent_count(self.entries@, k);
        }
    }

    /// Adds every occurrence recorded in `other`.
    pub fn absorb(&mut self, other: &TagMap)
        requires
            old(self).wf(),
            other.wf(),
            forall|k: Seq<char>| #[trigger] old(self)@.count(k) + other@.count(k) <= usize::MAX,
        ensures
            final(self).wf(),
            final(self)@ =~= old(self)@.add(other@),
    {
        let es = &other.entries;
        let mut i: usize = 0;
        assert(es@.subrange(0, 0) =~= Seq::<(String, usize)>::empty());
        while i < es.len()
            invariant
                es@ == other.entries@,
                entries_wf(es@),
                i <= es@.len(),
                self.wf(),
                forall|k: Seq<char>| #[trigger] old(self)@.count(k) + other@.count(k) <= usize::MAX,
                self@ =~= old(self)@.add(entries_view(es@.subrange(0, i as int))),
            decreases es@.len() - i,
        {
            let tag = es[i].0.clone();
            let c = es[i].1;
            proof {
                let prefix = es@.subrange(0, i as int);
                lemma_entry_count(es@, i as int);
                assert(!has_key(prefix, tag@)) by {
                    if has_key(prefix, tag@) {
                        let j = choose|j: int| 0 <= j < prefix.len() && #[trigger] prefix[j].0@ == tag@;
                        assert(es@[j].0@ != es@[i as int].0@);
                    }
                }
                lemma_absent_count(prefix, tag@);
                assert(old(self)@.count(tag@) + other@.count(tag@) <= usize::MAX);
                assert(es@.subrange(0, i + 1).drop_last() =~= prefix);
            }
            self.add(tag, c);
            i = i + 1;
        }
        assert(es@.subrange(0, es@.len() as int) =~= es@);
    }

    /// The tags with their counts, highest count first, ties in lexicographic
    /// order of the tag, cut after `n` entries.
    pub fn ranked(&self, n: usize) -> (r: Vec<(String, usize)>)
        requires
            self.wf(),
        ensures
            is_top_ranking(self@, n as nat, r@),
    {
        let es = &self.entries;
        let mut sorted: Vec<(String, usize)> = Vec::new();
        let mut i: usize = 0;
        while i < es.len()
            invariant
                es@ == self.entries@,
                entries_wf(es@),
                i <= es@.len(),
                in_rank_order(sorted@),
                forall|a: int|
                    0 <= a < sorted@.len() ==> exists|t: int|
                        0 <= t < i && #[trigger] sorted@[a] == es@[t],
                forall|t: int| 0 <= t < i ==> sorted@.contains(#[trigger] es@[t]),
            decreases es@.len() - i,
        {
            let e = (es[i].0.clone(), es[i].1);
            assert(e == es@[i as int]);
            proof {
                assert forall|q: int| 0 <= q < sorted@.len() implies #[trigger] sorted@[q].0@ != e.0@ by {
                    let t = choose|t: int| 0 <= t < i && #[trigger] sorted@[q] == es@[t];
                    assert(es@[t].0@ != es@[i as int].0@);
                }
            }
            let ghost before = sorted@;
            place_ranked(&mut sorted, e);
            proof {
                let s = sorted@;
                let p = choose|p: int| 0 <= p <= before.len() && s == before.insert(p, e);
                assert forall|a: int| 0 <= a < s.len() implies exists|t: int|
                    0 <= t < i + 1 && #[trigger] s[a] == es@[t] by {
                    if a < p {
                        assert(s[a] == before[a]);
                        let t = choose|t: int| 0 <= t < i && #[trigger] before[a] == es@[t];
                    } else if a == p {
                        assert(s[a] == es@[i as int]);
                    } else {
                        assert(s[a] == before[a - 1]);
                        let t = choose|t: int| 0 <= t < i && #[trigger] before[a - 1] == es@[t];
                    }
                }
                assert forall|t: int| 0 <= t < i + 1 implies s.contains(#[trigger] es@[t]) by {
                    if t == i {
                        assert(s[p] == es@[t]);
                    } else {
                        assert(before.contains(es@[t]));
                        let a = choose|a: int| 0 <= a < before.len() && before[a] == es@[t];
                        if a < p {
                            assert(s[a] == before[a]);
                        } else {
                            assert(s[a + 1] == before[a]);
                        }
                    }
                }
            }
            i = i + 1;
        }
        let ghost full = sorted@;
        sorted.truncate(n);
        proof {
            assert forall|a: int| 0 <= a < full.len() implies es@.contains(#[trigger] full[a]) by {
                let t = choose|t: int| 0 <= t < i && #[trigger] full[a] == es@[t];
                assert(es@[t] == full[a]);
            }
            lemma_cut_ranking(es@, full, n as nat, sorted@);
        }
        sorted
    }
}

/// Inserts `e` where the order of the ranking puts it.
fn place_ranked(sorted: &mut Vec<(String, usize)>, e: (String, usize))
    requires
        in_rank_order(old(sorted)@),
        forall|q: int| 0 <= q < old(sorted)@.len() ==> #[trigger] old(sorted)@[q].0@ != e.0@,
    ensures
        in_rank_order(final(sorted)@),
        exists|p: int| 0 <= p <= old(sorted)@.len() && final(sorted)@ == old(sorted)@.insert(p, e),
{
    let mut p: usize = 0;
    while p < sorted.len() && !ranks_first(&e, &sorted[p])
        invariant
            p <= sorted@.len(),
            forall|q: int| 0 <= q < p ==> !ranks_before(entry_key(e), entry_key(#[trigger] sorted@[q])),
        decreases sorted@.len() - p,
    {
        p = p + 1;
    }
    let ghost before = sorted@;
    proof {
        assert forall|q: int| 0 <= q < p implies ranks_before(
            entry_key(#[trigger] before[q]),
            entry_key(e),
        ) by {
            lemma_ranks_total(entry_key(before[q]), entry_key(e));
        }
        assert forall|q: int| p <= q < before.len() implies ranks_before(
            entry_key(e),
            entry_key(#[trigger] before[q]),
        ) by {
            if q > p {
                lemma_ranks_transitive(entry_key(e), entry_key(before[p as int]), entry_key(before[q]));
            }
        }
    }
    sorted.insert(p, e);
    proof {
        let s = sorted@;
        assert forall|a: int, b: int| 0 <= a < b < s.len() implies ranks_before(
            entry_key(#[trigger] s[a]),
            entry_key(#[trigger] s[b]),
        ) by {
            if b < p {
                assert(s[a] == before[a] && s[b] == before[b]);
            } else if b == p {
                assert(s[a] == before[a]);
            } else if a < p {
                assert(s[a] == before[a] && s[b] == before[b - 1]);
                lemma_ranks_transitive(entry_key(s[a]), entry_key(e), entry_key(s[b]));
            } else if a == p {
                assert(s[b] == before[b - 1]);
            } else {
                assert(s[a] == before[a - 1] && s[b] == before[b - 1]);
            }
        }
    }
}

/// Cutting a full ranking of the entries after `n` gives a top ranking.
proof fn lemma_cut_ranking(
    es: Seq<(String, usize)>,
    full: Seq<(String, usize)>,
    n: nat,
    r: Seq<(String, usize)>,
)
    requires
        entries_wf(es),
        in_rank_order(full),
        forall|a: int| 0 <= a < full.len() ==> es.contains(#[trigger] full[a]),
        forall|t: int| 0 <= t < es.len() ==> full.contains(#[trigger] es[t]),
        n <= full.len() ==> r == full.subrange(0, n as int),
        n > full.len() ==> r == full,
    ensures
        is_top_ranking(entries_view(es), n, r),
{
    let m = entries_view(es);
    assert forall|a: int| 0 <= a < r.len() implies #[trigger] r[a].1 > 0 && m.count(r[a].0@) == r[a].1 by {
        assert(r[a] == full[a]);
        let t = choose|t: int| 0 <= t < es.len() && es[t] == full[a];
        lemma_entry_count(es, t);
    }
    assert forall|a: int, b: int| 0 <= a < b < r.len() implies ranks_before(
        entry_key(#[trigger] r[a]),
        entry_key(#[trigger] r[b]),
    ) by {
        assert(r[a] == full[a] && r[b] == full[b]);
    }
    assert forall|k: Seq<char>| m.count(k) > 0 && !listed(r, k) implies r.len() == n && forall|a: int|
        0 <= a < r.len() ==> ranks_before(entry_key(#[trigger] r[a]), (k, m.count(k))) by {
        lemma_counted_has_key(es, k);
        let t = choose|t: int| 0 <= t < es.len() && #[trigger] es[t].0@ == k;
        lemma_entry_count(es, t);
        assert(full.contains(es[t]));
        let j = choose|j: int| 0 <= j < full.len() && full[j] == es[t];
        if j < r.len() {
            assert(r[j] == full[j]);
            assert(listed(r, k));
        }
        assert forall|a: int| 0 <= a < r.len() implies ranks_before(entry_key(#[trigger] r[a]), (k, m.count(k))) by {
            assert(r[a] == full[a]);
        }
    }
}

} // verus!
