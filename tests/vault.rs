use vault_stats::{extract, ScanReport, VaultStats};

#[test]
fn frequent_tags() {
    let mut vs = VaultStats::new();
    vs.tags.add("#second".to_string(), 3);
    vs.tags.add("#first".to_string(), 4);
    vs.tags.add("#third".to_string(), 2);
    vs.tags.add("#fourth".to_string(), 1);

    let take = 3;
    let freq_tags = vs.frequent_tags(take);

    assert_eq!(freq_tags.len(), take);
    assert_eq!(freq_tags[0], ("#first".to_string(), 4));
    assert_eq!(freq_tags[1], ("#second".to_string(), 3));
    assert_eq!(freq_tags[2], ("#third".to_string(), 2));
}

#[test]
fn frequent_tags_ties_in_lexicographic_order() {
    let mut vs = VaultStats::new();
    vs.tags.add("#b".to_string(), 2);
    vs.tags.add("#c".to_string(), 5);
    vs.tags.add("#a".to_string(), 2);
    vs.tags.add("#ab".to_string(), 2);
    let ranked = vs.frequent_tags(10);
    assert_eq!(
        ranked,
        vec![
            ("#c".to_string(), 5),
            ("#a".to_string(), 2),
            ("#ab".to_string(), 2),
            ("#b".to_string(), 2),
        ]
    );
    assert_eq!(vs.frequent_tags(0), vec![]);
}

#[test]
fn two_documents_share_a_tag() {
    let mut totals = VaultStats::new();
    totals.merge(extract("one #foo"));
    totals.merge(extract("#foo two"));
    assert_eq!(totals.tags.get(&"#foo".to_string()), 2);
    assert_eq!(totals.tags.len(), 1);
}

#[test]
fn two_file_vault() {
    let mut report = ScanReport::new();
    assert!(report.record(Some(extract("hello #x #x [[b]]"))));
    assert!(report.record(Some(extract("#y world"))));
    let stats = &report.stats;
    // "hello", "#x", "#x", "[[b]]" and "#y", "world": six whitespace-separated tokens.
    assert_eq!(stats.total_word_count, 6);
    assert_eq!(stats.total_link_count, 1);
    assert_eq!(stats.tags.len(), 2);
    assert_eq!(stats.tags.get(&"#x".to_string()), 2);
    assert_eq!(stats.tags.get(&"#y".to_string()), 1);
    assert_eq!(stats.frequent_tags(1), vec![("#x".to_string(), 2)]);
    assert_eq!(report.failed, 0);
}

#[test]
fn unreadable_file_among_ten() {
    let mut report = ScanReport::new();
    for i in 0..10 {
        let text = format!("word{} #t [[n{}]]", i, i);
        assert!(report.record(Some(extract(&text))));
        if i == 4 {
            assert!(report.record(None));
        }
    }
    assert_eq!(report.failed, 1);
    assert_eq!(report.stats.total_word_count, 30);
    assert_eq!(report.stats.total_link_count, 10);
    assert_eq!(report.stats.tags.get(&"#t".to_string()), 10);
}

#[test]
fn empty_vault() {
    let report = ScanReport::new();
    assert_eq!(report.failed, 0);
    assert_eq!(report.stats.total_word_count, 0);
    assert_eq!(report.stats.total_link_count, 0);
    assert_eq!(report.stats.tags.len(), 0);
    assert!(report.stats.frequent_tags(3).is_empty());
}

#[test]
fn scanning_twice_in_another_order_agrees() {
    let docs = ["a #p [[x]]", "b c #q #p", "", "[[y]] [[z]] #q"];
    let mut first = ScanReport::new();
    for d in docs.iter() {
        assert!(first.record(Some(extract(d))));
    }
    first.record(None);
    let mut second = ScanReport::new();
    second.record(None);
    for d in docs.iter().rev() {
        assert!(second.record(Some(extract(d))));
    }
    assert_eq!(first.failed, second.failed);
    assert_eq!(first.stats.total_word_count, second.stats.total_word_count);
    assert_eq!(first.stats.total_link_count, second.stats.total_link_count);
    assert_eq!(first.stats.frequent_tags(10), second.stats.frequent_tags(10));
}

#[test]
fn merge_order_does_not_matter() {
    let a = "#a #b one";
    let b = "#b [[l]] two three";
    let c = "#c #a";
    let mut abc = VaultStats::new();
    abc.merge(extract(a));
    abc.merge(extract(b));
    abc.merge(extract(c));
    let mut cab = VaultStats::new();
    cab.merge(extract(c));
    cab.merge(extract(a));
    cab.merge(extract(b));
    assert_eq!(abc.total_word_count, cab.total_word_count);
    assert_eq!(abc.total_link_count, cab.total_link_count);
    assert_eq!(abc.frequent_tags(10), cab.frequent_tags(10));
    assert_eq!(abc.frequent_tags(10)[0], ("#a".to_string(), 2));
}

#[test]
fn fits_refuses_an_overflowing_merge() {
    let mut totals = VaultStats::new();
    totals.total_word_count = usize::MAX;
    let note = extract("one");
    assert!(!totals.fits(&note));
    let mut report = ScanReport::new();
    report.stats.total_word_count = usize::MAX;
    assert!(!report.record(Some(extract("one"))));
    assert_eq!(report.stats.total_word_count, usize::MAX);
}

#[test]
fn scan_two_file_vault() {
    let docs = vec![
        Some("hello #x #x [[b]]".to_string()),
        Some("#y world".to_string()),
    ];
    let report = ScanReport::scan(&docs).unwrap();
    assert_eq!(report.stats.total_word_count, 6);
    assert_eq!(report.stats.total_link_count, 1);
    assert_eq!(report.stats.frequent_tags(1), vec![("#x".to_string(), 2)]);
    assert_eq!(report.stats.tags.get(&"#y".to_string()), 1);
    assert_eq!(report.failed, 0);
}

#[test]
fn scan_counts_one_unreadable_among_ten() {
    let mut docs: Vec<Option<String>> = (0..10).map(|i| Some(format!("w{} #t [[n]]", i))).collect();
    let readable = ScanReport::scan(&docs).unwrap();
    docs.insert(3, None);
    let report = ScanReport::scan(&docs).unwrap();
    assert_eq!(report.failed, 1);
    assert_eq!(report.stats.total_word_count, readable.stats.total_word_count);
    assert_eq!(report.stats.total_link_count, 10);
    assert_eq!(report.stats.tags.get(&"#t".to_string()), 10);
}

#[test]
fn scan_of_no_documents_is_empty() {
    let report = ScanReport::scan(&Vec::new()).unwrap();
    assert_eq!(report.failed, 0);
    assert_eq!(report.stats.total_word_count, 0);
    assert_eq!(report.stats.total_link_count, 0);
    assert!(report.stats.frequent_tags(3).is_empty());
}

#[test]
fn scan_twice_in_another_order() {
    let docs = vec![Some("#a [[x]] one".to_string()), None, Some("#a #b two three".to_string())];
    let mut reversed = docs.clone();
    reversed.reverse();
    let first = ScanReport::scan(&docs).unwrap();
    let second = ScanReport::scan(&reversed).unwrap();
    assert_eq!(first.failed, second.failed);
    assert_eq!(first.stats.total_word_count, second.stats.total_word_count);
    assert_eq!(first.stats.total_link_count, second.stats.total_link_count);
    assert_eq!(first.stats.frequent_tags(5), second.stats.frequent_tags(5));
}
