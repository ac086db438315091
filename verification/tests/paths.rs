use sky_daemon::backups::{backup_filename, sort_newest_first};
use sky_daemon::paths::{join, names_file, path_escapes};
use sky_daemon::payloads::BackupEntry;
use sky_daemon::table::Table;

#[test]
fn joining_follows_the_rules_of_the_system() {
    for (base, part) in [
        ("/a", "b"),
        ("/a/", "b"),
        ("/a", "/b"),
        ("", "b"),
        ("/a", ""),
        ("", ""),
        ("a//", "b/"),
        ("/a", "../b"),
    ] {
        let expected = std::path::Path::new(base).join(part);
        assert_eq!(join(base, part), expected.to_str().unwrap());
    }
}

#[test]
fn escaping_is_decided_by_components() {
    for rel in ["", "a", "..", "../a", "a/..", "/a", "...", "..a/b", "a/.../b", "./..", ".", "a//..//b", "/"] {
        let expected = std::path::Path::new(rel).components().any(|c| {
            !matches!(c, std::path::Component::Normal(_) | std::path::Component::CurDir)
        });
        assert_eq!(path_escapes(rel), expected, "{}", rel);
    }
}

#[test]
fn file_names_are_single_components() {
    for name in ["a", "a.b", "...", ".hidden", "a b"] {
        assert!(names_file(name));
    }
    for name in ["", ".", "..", "/", "a/b", "a/", "/a"] {
        assert!(!names_file(name));
    }
}

#[test]
fn backup_names_tell_the_time() {
    assert_eq!(backup_filename(0), "backup-0.tar.zst");
    assert_eq!(backup_filename(1_700_000_000), "backup-1700000000.tar.zst");
    assert_ne!(backup_filename(1), backup_filename(11));
}

#[test]
fn sorting_keeps_the_order_of_equal_times() {
    let entry = |filename: &str, created_at: u64| BackupEntry {
        filename: filename.to_string(),
        size_bytes: 0,
        created_at,
    };
    let sorted = sort_newest_first(vec![entry("a", 1), entry("b", 3), entry("c", 1), entry("d", 2), entry("e", 3)]);
    let names: Vec<&str> = sorted.iter().map(|e| e.filename.as_str()).collect();
    assert_eq!(names, vec!["b", "e", "d", "a", "c"]);
    assert!(sort_newest_first(vec![]).is_empty());
}

#[test]
fn tables_map_texts_to_values() {
    let mut table: Table<u32> = Table::new();
    assert_eq!(table.get("a"), None);
    table.insert("a".to_string(), 1);
    table.insert("b".to_string(), 2);
    table.insert("a".to_string(), 3);
    assert_eq!(table.get("a"), Some(&3));
    assert_eq!(table.get("b"), Some(&2));
    assert!(table.contains("b"));
    table.remove("a");
    table.remove("absent");
    assert_eq!(table.get("a"), None);
    assert!(table.contains("b"));
}
