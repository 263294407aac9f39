use vault_stats::extract;
use vault_stats::extract::{count_links, count_tags, count_words};

fn chars_of(s: &str) -> Vec<char> {
    s.chars().collect()
}

fn words(s: &str) -> usize {
    count_words(&chars_of(s))
}

fn links(s: &str) -> usize {
    count_links(&chars_of(s))
}

#[test]
fn word_count_splits_on_ascii_whitespace() {
    assert_eq!(words(""), 0);
    assert_eq!(words("   \t\n"), 0);
    assert_eq!(words("one"), 1);
    assert_eq!(words("  one two\tthree\r\nfour\x0Cfive  "), 5);
    assert_eq!(words("a\u{00A0}b"), 1);
}

#[test]
fn link_count_non_greedy_and_unterminated() {
    assert_eq!(links(""), 0);
    assert_eq!(links("[[a]]"), 1);
    assert_eq!(links("[[a]] and [[b]]"), 2);
    assert_eq!(links("[[a]]]]"), 1);
    assert_eq!(links("[[unterminated"), 0);
    assert_eq!(links("[[[x]]"), 1);
    assert_eq!(links("[[]]"), 1);
    assert_eq!(links("[[a\nb]]"), 1);
    assert_eq!(links("[[a\n\nb]] [[c"), 1);
    assert_eq!(links("[[a\n[[b]]"), 1);
    assert_eq!(links("[a]] [[b]"), 0);
}

#[test]
fn tags_are_hash_and_word_characters() {
    let tags = count_tags(&chars_of("#foo #foo #bar_1 # #-x ##baz #caf\u{e9}! a#mid"));
    assert_eq!(tags.get(&"#foo".to_string()), 2);
    assert_eq!(tags.get(&"#bar_1".to_string()), 1);
    assert_eq!(tags.get(&"#baz".to_string()), 1);
    assert_eq!(tags.get(&"#caf\u{e9}".to_string()), 1);
    assert_eq!(tags.get(&"#mid".to_string()), 1);
    assert_eq!(tags.get(&"#".to_string()), 0);
    assert_eq!(tags.len(), 5);
}

#[test]
fn tag_characters_are_letters_digits_underscore() {
    let tags = count_tags(&chars_of("#x\u{b2} #x\u{bd} #\u{3b1}9_ #\u{b2}"));
    assert_eq!(tags.get(&"#x".to_string()), 2);
    assert_eq!(tags.get(&"#\u{3b1}9_".to_string()), 1);
    assert_eq!(tags.len(), 2);
}

#[test]
fn adjacent_tags_split_at_hash() {
    let tags = count_tags(&chars_of("#a#b#a"));
    assert_eq!(tags.get(&"#a".to_string()), 2);
    assert_eq!(tags.get(&"#b".to_string()), 1);
    assert_eq!(tags.len(), 2);
}

#[test]
fn tags_are_case_sensitive() {
    let tags = count_tags(&chars_of("#Tag #tag"));
    assert_eq!(tags.get(&"#Tag".to_string()), 1);
    assert_eq!(tags.get(&"#tag".to_string()), 1);
}

#[test]
fn extract_one_document() {
    let stats = extract("hello #x #x [[b]]");
    assert_eq!(stats.word_count, 4);
    assert_eq!(stats.link_count, 1);
    assert_eq!(stats.tags.get(&"#x".to_string()), 2);
    assert_eq!(stats.tags.len(), 1);
}

#[test]
fn extract_empty_document() {
    let stats = extract("");
    assert_eq!(stats.word_count, 0);
    assert_eq!(stats.link_count, 0);
    assert_eq!(stats.tags.len(), 0);
}
