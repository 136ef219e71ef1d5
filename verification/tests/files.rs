use test_runner::collect::{
    file_name_of, is_candidate, is_executable, is_hidden, FileCollection,
};
use test_runner::configs::{Config, ConfigPath, ConfigWorker, TargetPath};

fn pairs(list: &[(&str, &str)]) -> Vec<(String, String)> {
    list.iter().map(|(a, b)| (a.to_string(), b.to_string())).collect()
}

fn groups(list: &[(&str, usize)]) -> Vec<(String, usize)> {
    list.iter().map(|(a, n)| (a.to_string(), *n)).collect()
}

#[test]
fn empty_collection() {
    let files = FileCollection::new();
    assert_eq!(files.len(), 0);
    assert!(files.exe_info().is_empty());
    assert!(files.folder_group().is_empty());
    assert_eq!(files.str_file_name_from(0), "(null)");
}

#[test]
fn insert_path_groups_by_folder() {
    let mut files = FileCollection::new();
    files.insert_path("bin/a/t1");
    files.insert_path("bin/a/t2");
    files.insert_path("bin/b/t3");
    files.insert_path("bin/a/t4");
    files.insert_path("bin/a/t5");
    files.insert_path("bin/a/t6");
    assert_eq!(files.len(), 6);
    assert_eq!(
        files.exe_info(),
        &pairs(&[
            ("t1", "bin/a/t1"),
            ("t2", "bin/a/t2"),
            ("t3", "bin/b/t3"),
            ("t4", "bin/a/t4"),
            ("t5", "bin/a/t5"),
            ("t6", "bin/a/t6"),
        ])
    );
    assert_eq!(
        files.folder_group(),
        &groups(&[("bin/a", 2), ("bin/b", 1), ("bin/a", 3)])
    );
}

#[test]
fn insert_path_without_folder() {
    let mut files = FileCollection::new();
    files.insert_path("plain");
    assert_eq!(files.exe_info(), &pairs(&[("undefined name", "plain")]));
    assert!(files.folder_group().is_empty());
    files.insert_path("/");
    assert_eq!(files.exe_info()[1], ("".to_string(), "/".to_string()));
    assert!(files.folder_group().is_empty());
    files.insert_path("/top");
    assert_eq!(files.exe_info()[2], ("top".to_string(), "/top".to_string()));
    assert_eq!(files.folder_group(), &groups(&[("/", 1)]));
}

#[test]
fn insert_path_takes_the_parent_from_the_path_library() {
    let mut files = FileCollection::new();
    files.insert_path("/usr/bin/foo");
    files.insert_path("/usr/bin//bar");
    files.insert_path("/usr/lib/baz/");
    assert_eq!(FileCollection::get_parent("/usr/bin/foo"), "/usr/bin");
    assert_eq!(FileCollection::get_parent("/usr/bin/foo/"), "/usr/bin");
    assert_eq!(FileCollection::get_parent("foo"), "");
    assert_eq!(FileCollection::get_parent(""), "");
    assert_eq!(FileCollection::get_parent("/"), "");
    assert_eq!(
        files.exe_info(),
        &pairs(&[
            ("foo", "/usr/bin/foo"),
            ("bar", "/usr/bin//bar"),
            ("", "/usr/lib/baz/"),
        ])
    );
    assert_eq!(
        files.folder_group(),
        &groups(&[("/usr/bin", 2), ("/usr/lib", 1)])
    );
}

#[test]
fn push_entry_follows_the_last_group_only() {
    let mut files = FileCollection::new();
    files.push_entry("a".to_string(), "x/a".to_string(), "x");
    files.push_entry("b".to_string(), "b".to_string(), "");
    files.push_entry("c".to_string(), "x/c".to_string(), "x");
    files.push_entry("d".to_string(), "y/d".to_string(), "y");
    files.push_entry("e".to_string(), "x/e".to_string(), "x");
    assert_eq!(files.len(), 5);
    assert_eq!(files.folder_group(), &groups(&[("x", 2), ("y", 1), ("x", 1)]));
    assert_eq!(files.str_file_name_from(3), "y/d");
    assert_eq!(files.str_file_name_from(4), "x/e");
    assert_eq!(files.str_file_name_from(5), "(null)");
    assert_eq!(files.str_file_name_from(usize::MAX), "(null)");
}

#[test]
fn file_name_is_what_follows_the_last_slash() {
    assert_eq!(file_name_of("a/b/c"), "c");
    assert_eq!(file_name_of("a/b/"), "");
    assert_eq!(file_name_of("/c"), "c");
    assert_eq!(file_name_of("c"), "undefined name");
    assert_eq!(file_name_of(""), "undefined name");
    assert_eq!(file_name_of("d\u{e9}j\u{e0}/v\u{fc}"), "v\u{fc}");
    assert_eq!(file_name_of("\u{1f600}/\u{1f600}\u{1f600}"), "\u{1f600}\u{1f600}");
}

#[test]
fn hidden_names_start_with_a_dot() {
    assert!(is_hidden(".git"));
    assert!(is_hidden("."));
    assert!(is_hidden(".."));
    assert!(!is_hidden(""));
    assert!(!is_hidden("a.b"));
    assert!(!is_hidden("\u{e9}.x"));
}

#[test]
fn executable_means_any_execute_bit() {
    assert!(is_executable(0o755));
    assert!(is_executable(0o100));
    assert!(is_executable(0o010));
    assert!(is_executable(0o001));
    assert!(is_executable(0o100644 | 0o1));
    assert!(!is_executable(0o644));
    assert!(!is_executable(0o666));
    assert!(!is_executable(0));
    assert!(!is_executable(0o100644));
}

#[test]
fn candidates_are_visible_executable_regular_files() {
    assert!(is_candidate(true, "test_a", Some(0o100755)));
    assert!(is_candidate(true, "a.out", Some(0o001)));
    assert!(!is_candidate(false, "test_a", Some(0o755)));
    assert!(!is_candidate(true, ".test_a", Some(0o755)));
    assert!(!is_candidate(true, "test_a", Some(0o644)));
    assert!(!is_candidate(true, "test_a", None));
    assert!(!is_candidate(false, ".hidden", None));
    assert!(is_candidate(true, "", Some(0o777)));
}

#[test]
fn target_path_default_and_config_file() {
    let empty = TargetPath::default();
    assert_eq!(empty.config_path, "");
    assert_eq!(empty.bin_target, "");
    assert_eq!(empty.config_file(), "/config.toml");
    let target = TargetPath {
        config_path: "conf/dir".to_string(),
        bin_target: "bin_test".to_string(),
    };
    assert_eq!(target.config_file(), "conf/dir/config.toml");
}

#[test]
fn config_takes_the_setting_of_the_first_file() {
    let config = Config {
        target_config: TargetPath::default(),
        path: ConfigPath {
            report_out: "report".to_string(),
            error_out: "errors".to_string(),
        },
        process: ConfigWorker { max_child_spawn: 4, worker_count: 2 },
    };
    let merged = config.with_target(TargetPath {
        config_path: "conf".to_string(),
        bin_target: "bin".to_string(),
    });
    assert_eq!(merged.target_config.config_path, "conf");
    assert_eq!(merged.target_config.bin_target, "bin");
    assert_eq!(merged.path.report_out, "report");
    assert_eq!(merged.path.error_out, "errors");
    assert_eq!(merged.process.max_child_spawn, 4);
    assert_eq!(merged.process.worker_count, 2);
}
