use inf::path::{absolute, is_absolute, join, normal_form, parent_normal_form};
use inf::text::{decimal_string, join_strings, split_pieces, split_words, Delimiter};
use inf::watch::{file_stat, notification_event, parent_dirs, Event, FileStat};
use inf::config::{expand_tilde, monitor_candidates, compile_file_candidates};

#[test]
fn joins_like_path_join() {
    assert_eq!(join("/home/u", "a.txt"), "/home/u/a.txt");
    assert_eq!(join("/home/u/", "a.txt"), "/home/u/a.txt");
    assert_eq!(join("/home/u", "/etc/x"), "/etc/x");
    assert_eq!(join("", "a"), "a");
    assert!(is_absolute("/x"));
    assert!(!is_absolute("x/y"));
    assert_eq!(absolute("x", &None), "./x");
    assert_eq!(absolute("x", &Some("/w".to_string())), "/w/x");
    assert_eq!(absolute("/y", &Some("/w".to_string())), "/y");
}

#[test]
fn normal_forms_follow_components() {
    assert_eq!(normal_form("/a//b/./c/"), "/a/b/c");
    assert_eq!(normal_form("./a/./b"), "./a/b");
    assert_eq!(normal_form("a/../b"), "a/../b");
    assert_eq!(normal_form("/"), "/");
    assert_eq!(normal_form(""), "");
    assert_eq!(normal_form(".hidden/x"), ".hidden/x");
    assert_eq!(parent_normal_form("/a/b/c.txt"), "/a/b");
    assert_eq!(parent_normal_form("/c.txt"), "/");
    assert_eq!(parent_normal_form("/"), "/");
    assert_eq!(parent_normal_form("a"), "");
}

#[test]
fn parent_dirs_are_watched_once() {
    let paths = vec!["/w/a.txt".to_string(), "/w//b.txt".to_string(), "/v/c".to_string(), "/w/./d".to_string()];
    assert_eq!(parent_dirs(&paths), vec!["/w".to_string(), "/v".to_string()]);
}

#[test]
fn splits_like_str_split() {
    let pieces = split_pieces("a,,b,", &Delimiter::Char(','));
    assert_eq!(pieces, vec!["a", "", "b", ""]);
    assert_eq!(split_pieces("", &Delimiter::Char(',')), vec![""]);
    assert_eq!(split_words("  gcc\t-o  main\u{a0}main.c \n"), vec!["gcc", "-o", "main", "main.c"]);
    assert!(split_words(" \t ").is_empty());
    assert_eq!(join_strings(&vec!["a".to_string(), "b".to_string()], ", "), "a, b");
}

#[test]
fn tilde_and_candidates() {
    let home = Some("/home/u".to_string());
    assert_eq!(expand_tilde("~/x", &home), "/home/u/x");
    assert_eq!(expand_tilde("~/x", &None), "~/x");
    assert_eq!(expand_tilde("~x", &home), "~x");
    assert_eq!(monitor_candidates("~/a,b", &home), vec!["/home/u/a", "b"]);
    assert_eq!(compile_file_candidates("gcc -Wall main.c .x lib.o"), vec!["main.c", "lib.o"]);
}

#[test]
fn decimal_text() {
    assert_eq!(decimal_string(0), "0");
    assert_eq!(decimal_string(42), "42");
    assert_eq!(decimal_string(-7), "-7");
    assert_eq!(decimal_string(i32::MAX), "2147483647");
    assert_eq!(decimal_string(i32::MIN), "-2147483648");
}

#[test]
fn stats_and_notifications() {
    assert_eq!(file_stat(None), None);
    assert_eq!(
        file_stat(Some((5, 6, 7, 8, 9, 10))),
        Some(FileStat { mtime: 5, size: 6, ino: 7, mode: 8, uid: 9, gid: 10 })
    );
    assert_eq!(notification_event(true, true), Some(Event::Quit));
    assert_eq!(notification_event(false, true), Some(Event::Trigger));
    assert_eq!(notification_event(false, false), None);
}

#[test]
fn watcher_gets_one_non_recursive_watch_per_directory() {
    let paths = vec!["/w/a.txt".to_string(), "/w/b.txt".to_string(), "/v/c".to_string()];
    let watches = inf::watch::watched_dirs(&paths);
    assert_eq!(watches.len(), 2);
    let dirs: Vec<std::path::PathBuf> = watches.iter().map(std::path::PathBuf::from).collect();
    assert_eq!(dirs, vec![std::path::PathBuf::from("/w"), std::path::PathBuf::from("/v")]);
    assert!(format!("{:?}", watches[0]).contains("recursive: false"));
}
