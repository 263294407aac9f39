use vault_stats::naming::{daily_note_name, note_title, Timestamp};
use vault_stats::note::note_url;
use vault_stats::walk::{has_extension, is_hidden};
use vault_stats::{Config, Template};

#[test]
fn hidden_entries_start_with_a_dot() {
    assert!(is_hidden(".obsidian"));
    assert!(is_hidden(".md"));
    assert!(!is_hidden("notes.md"));
    assert!(!is_hidden(""));
}

#[test]
fn note_extension() {
    assert!(has_extension("a.md", "md"));
    assert!(has_extension("a.b.md", "md"));
    assert!(has_extension(".x.md", "md"));
    assert!(!has_extension(".md", "md"));
    assert!(!has_extension("md", "md"));
    assert!(!has_extension("a.md.txt", "md"));
    assert!(!has_extension("a.mdx", "md"));
    assert!(has_extension("a.", ""));
}

#[test]
fn full_path_inside_the_vault() {
    let cfg = Config {
        vault: "/home/me/vault".to_string(),
        template: Template::default(),
    };
    assert_eq!(cfg.get_full_path("notes/a.md"), "/home/me/vault/notes/a.md");
    assert_eq!(cfg.get_full_path("/etc/x.md"), "/etc/x.md");
    let slash = Config {
        vault: "/v/".to_string(),
        template: Template::default(),
    };
    assert_eq!(slash.get_full_path("a.md"), "/v/a.md");
    let empty = Config::default();
    assert_eq!(empty.get_full_path("a.md"), "a.md");
}

#[test]
fn note_url_encodes_vault_and_file() {
    assert_eq!(
        note_url("Test Vault", "2025-08-15"),
        "obsidian://open?vault=Test%20Vault&file=2025-08-15"
    );
    assert_eq!(
        note_url("a&b/é", "x_y.~"),
        "obsidian://open?vault=a%26b%2F%C3%A9&file=x_y.~"
    );
}

#[test]
fn note_names_from_the_time() {
    let t = Timestamp {
        year: 2025,
        month: 8,
        day: 5,
        hour: 9,
        minute: 0,
        second: 7,
    };
    assert_eq!(t.date(), "2025-08-05");
    assert_eq!(t.stamp(), "2025_08_05_09_00_07");
    assert_eq!(note_title(&t.stamp()), "Note_2025_08_05_09_00_07.md");
    assert_eq!(daily_note_name(&t.date()), "2025-08-05.md");
    let early = Timestamp {
        year: 987,
        month: 12,
        day: 31,
        hour: 23,
        minute: 59,
        second: 59,
    };
    assert_eq!(early.stamp(), "0987_12_31_23_59_59");
}
