//! The content extractor: words, links and tags of one document.
use vstd::prelude::*;

use crate::tags::TagMap;
use crate::text::{chars_of, is_ascii_space, is_space, is_word_char, string_from, word_char};
use crate::vault::{NoteStats, Tally};

verus! {

broadcast use vstd::multiset::group_multiset_axioms, vstd::seq_lib::group_to_multiset_ensures;

/// Position `i` holds the first character of a word: a character that is not
/// whitespace, at the start of the text or after whitespace.
pub open spec fn starts_word(s: Seq<char>, i: int) -> bool {
    0 <= i < s.len() && !is_ascii_space(s[i]) && (i == 0 || is_ascii_space(s[i - 1]))
}

/// The number of words that start among the first `n` characters.
pub open spec fn words_in(s: Seq<char>, n: int) -> nat
    decreases n,
{
    if n <= 0 {
        0
    } else {
        words_in(s, n - 1) + if starts_word(s, n - 1) {
            1nat
        } else {
            0nat
        }
    }
}

/// The number of maximal runs of non-whitespace characters.
pub open spec fn word_count_of(s: Seq<char>) -> nat {
    words_in(s, s.len() as int)
}

/// `[[` stands at position `i`.
pub open spec fn opens_link(s: Seq<char>, i: int) -> bool {
    0 <= i && i + 1 < s.len() && s[i] == '[' && s[i + 1] == '['
}

/// `]]` stands at position `k`.
pub open spec fn closes_link(s: Seq<char>, k: int) -> bool {
    0 <= k && k + 1 < s.len() && s[k] == ']' && s[k + 1] == ']'
}

/// The length of the text from `k` up to and including the nearest `]]`,
/// or `None` when no `]]` follows.
pub open spec fn span_len(s: Seq<char>, k: int) -> Option<nat>
    decreases s.len() - k,
{
    if k < 0 || k + 1 >= s.len() {
        None
    } else if closes_link(s, k) {
        Some(2)
    } else {
        match span_len(s, k + 1) {
            Some(n) => Some(n + 1),
            None => None,
        }
    }
}

/// A span found from `k` ends within the text.
pub proof fn lemma_span_within(s: Seq<char>, k: int)
    ensures
        span_len(s, k) matches Some(n) ==> k + n <= s.len(),
    decreases s.len() - k,
{
    if 0 <= k && k + 1 < s.len() && !closes_link(s, k) {
        lemma_span_within(s, k + 1);
    }
}

/// The number of links found scanning from position `i`: each `[[` that the
/// nearest `]]` closes is one link, and the scan goes on after that `]]`.
pub open spec fn links_from(s: Seq<char>, i: int) -> nat
    decreases s.len() - i,
{
    if i < 0 || i >= s.len() {
        0
    } else if opens_link(s, i) {
        match span_len(s, i + 2) {
            Some(n) => {
                proof {
                    lemma_span_within(s, i + 2);
                }
                1 + links_from(s, i + 2 + n)
            },
            None => links_from(s, i + 1),
        }
    } else {
        links_from(s, i + 1)
    }
}

/// The number of non-overlapping `[[...]]` spans.
pub open spec fn link_count_of(s: Seq<char>) -> nat {
    links_from(s, 0)
}

/// The length of the run of word characters that starts at `k`.
pub open spec fn word_run(s: Seq<char>, k: int) -> nat
    decreases s.len() - k,
{
    if 0 <= k < s.len() && is_word_char(s[k]) {
        1 + word_run(s, k + 1)
    } else {
        0
    }
}

/// A run of word characters ends within the text.
pub proof fn lemma_run_within(s: Seq<char>, k: int)
    requires
        0 <= k,
    ensures
        k + word_run(s, k) <= s.len() || word_run(s, k) == 0,
    decreases s.len() - k,
{
    if 0 <= k < s.len() && is_word_char(s[k]) {
        lemma_run_within(s, k + 1);
    }
}

/// A tag starts at `i`: `#` followed by at least one word character.
pub open spec fn starts_tag(s: Seq<char>, i: int) -> bool {
    0 <= i < s.len() && s[i] == '#' && word_run(s, i + 1) > 0
}

/// The tags found scanning from position `i`, in order; each tag is `#` and
/// the longest run of word characters after it.
pub open spec fn tags_from(s: Seq<char>, i: int) -> Seq<Seq<char>>
    decreases s.len() - i,
{
    if i < 0 || i >= s.len() {
        Seq::empty()
    } else if starts_tag(s, i) {
        let e = i + 1 + word_run(s, i + 1);
        proof {
            lemma_run_within(s, i + 1);
        }
        seq![s.subrange(i, e)] + tags_from(s, e)
    } else {
        tags_from(s, i + 1)
    }
}

/// Every tag occurrence of the text, in order.
pub open spec fn tags_of(s: Seq<char>) -> Seq<Seq<char>> {
    tags_from(s, 0)
}

/// What the extractor finds in a text.
pub open spec fn extraction(s: Seq<char>) -> Tally {
    Tally { words: word_count_of(s), links: link_count_of(s), tags: tags_of(s).to_multiset() }
}

/// Counts the words of a text.
pub fn count_words(cs: &Vec<char>) -> (r: usize)
    ensures
        r == word_count_of(cs@),
{
    let mut count: usize = 0;
    let mut i: usize = 0;
    while i < cs.len()
        invariant
            i <= cs@.len(),
            count == words_in(cs@, i as int),
            count <= i,
        decreases cs@.len() - i,
    {
        if !is_space(cs[i]) && (i == 0 || is_space(cs[i - 1])) {
            count = count + 1;
        }
        i = i + 1;
    }
    count
}

/// Where the span that starts at `k` ends: the position after the nearest
/// `]]`, or `None` when no `]]` follows.
fn span_end(cs: &Vec<char>, k: usize) -> (r: Option<usize>)
    requires
        k <= cs@.len(),
    ensures
        span_len(cs@, k as int) is None <==> r is None,
        r matches Some(e) ==> k + 2 <= e <= cs@.len() && span_len(cs@, k as int) == Some((e - k) as nat),
{
    let mut j: usize = k;
    proof {
        lemma_span_within(cs@, k as int);
    }
    while j < cs.len() && cs.len() - j > 1
        invariant
            k <= j <= cs@.len(),
            match span_len(cs@, k as int) {
                Some(n) => span_len(cs@, j as int) == Some((n - (j - k)) as nat) && j - k < n,
                None => span_len(cs@, j as int) is None,
            },
        decreases cs@.len() - j,
    {
        if cs[j] == ']' && cs[j + 1] == ']' {
            return Some(j + 2);
        }
        j = j + 1;
    }
    None
}

/// Counts the links of a text.
pub fn count_links(cs: &Vec<char>) -> (r: usize)
    ensures
        r == link_count_of(cs@),
{
    let mut count: usize = 0;
    let mut i: usize = 0;
    while i < cs.len()
        invariant
            i <= cs@.len(),
            count + links_from(cs@, i as int) == link_count_of(cs@),
            count <= i,
        decreases cs@.len() - i,
    {
        if i + 1 < cs.len() && cs[i] == '[' && cs[i + 1] == '[' {
            let end = span_end(cs, i + 2);
            assert(opens_link(cs@, i as int));
            match end {
                Some(e) => {
                    assert(links_from(cs@, i as int) == 1 + links_from(cs@, e as int));
                    count = count + 1;
                    i = e;
                },
                None => {
                    assert(links_from(cs@, i as int) == links_from(cs@, i + 1));
                    i = i + 1;
                },
            }
        } else {
            i = i + 1;
        }
    }
    count
}

/// The length of the run of word characters that starts at `k`.
fn word_run_len(cs: &Vec<char>, k: usize) -> (r: usize)
    requires
        k <= cs@.len(),
    ensures
        r == word_run(cs@, k as int),
        k + r <= cs@.len(),
{
    let mut j: usize = k;
    while j < cs.len() && word_char(cs[j])
        invariant
            k <= j <= cs@.len(),
            word_run(cs@, k as int) == (j - k) + word_run(cs@, j as int),
        decreases cs@.len() - j,
    {
        j = j + 1;
    }
    j - k
}

/// The occurrences of each tag in a text.
pub fn count_tags(cs: &Vec<char>) -> (r: TagMap)
    ensures
        r.wf(),
        r@ =~= tags_of(cs@).to_multiset(),
{
    let mut map = TagMap::new();
    let ghost mut found: Seq<Seq<char>> = Seq::empty();
    let mut i: usize = 0;
    while i < cs.len()
        invariant
            i <= cs@.len(),
            map.wf(),
            map@ =~= found.to_multiset(),
            tags_of(cs@) == found + tags_from(cs@, i as int),
            found.len() <= i,
        decreases cs@.len() - i,
    {
        if cs[i] == '#' && i + 1 <= cs.len() {
            let run = word_run_len(cs, i + 1);
            if run > 0 {
                let e = i + 1 + run;
                let tag = string_from(cs, i, e);
                proof {
                    vstd::multiset::axiom_count_le_len(map@, tag@);
                    assert(found + tags_from(cs@, i as int) =~= found.push(tag@) + tags_from(cs@, e as int));
                }
                map.add(tag, 1);
                proof {
                    found = found.push(tag@);
                }
                i = e;
            } else {
                i = i + 1;
            }
        } else {
            i = i + 1;
        }
    }
    assert(found + tags_from(cs@, i as int) =~= found);
    map
}

/// Extracts the word count, the link count and the tag occurrences of a document.
pub fn extract(text: &str) -> (r: NoteStats)
    ensures
        r.wf(),
        r@ == extraction(text@),
{
    let cs = chars_of(text);
    let word_count = count_words(&cs);
    let link_count = count_links(&cs);
    let tags = count_tags(&cs);
    NoteStats { word_count, link_count, tags }
}

} // verus!
