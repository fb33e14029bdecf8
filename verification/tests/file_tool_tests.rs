use agents_rust::filesystem::{file_info, utc_representable, MIN_UTC_SECS, MAX_UTC_SECS};
use agents_rust::filesystem::{
    read_window, is_binary, binary_notice, directory_notice, write_mode, WriteMode, write_report,
    listing_keeps, format_listing, glob_match, search_kind, SearchKind, search_keeps,
    name_matches, content_matches, search_report, permission_text,
};
use agents_rust::command::{check_blocked, format_run_output, collect_output, started_message, sent_message, terminated_message};
use agents_rust::security::{normalize_path, shellexpand, check_allowed};

#[test]
fn read_window_pages_forward() {
    assert_eq!(
        read_window("a\nb\nc\nd\ne", 1, 2),
        "[Reading 2 lines from line 1 (total: 5 lines, 2 remaining)]\n\nb\nc"
    );
}

#[test]
fn read_window_tail() {
    assert_eq!(
        read_window("a\nb\nc\nd\ne", -2, 1000),
        "[Reading 2 lines from line 3 (total: 5 lines, 0 remaining)]\n\nd\ne"
    );
}

#[test]
fn read_window_beyond_end() {
    assert_eq!(
        read_window("a\nb", 10, 5),
        "[Reading 0 lines (total: 2 lines)]\n(offset 10 is beyond file end)"
    );
    assert_eq!(
        read_window("", -3, 5),
        "[Reading 0 lines (total: 0 lines)]\n(offset -3 is beyond file end)"
    );
}

#[test]
fn binary_detection_samples_the_start() {
    assert!(is_binary(&[1, 2, 0, 3]));
    assert!(!is_binary(b"plain text"));
    let mut late = vec![b'a'; 9000];
    late[8500] = 0;
    assert!(!is_binary(&late));
    assert_eq!(binary_notice(42), "[Binary file: 42 bytes. Contents not displayed.]");
    assert_eq!(directory_notice("src"), "'src' is a directory. Use list_directory instead.");
}

#[test]
fn write_modes_and_report() {
    assert!(matches!(write_mode("append"), WriteMode::Append));
    assert!(matches!(write_mode("rewrite"), WriteMode::Rewrite));
    assert!(matches!(write_mode("other"), WriteMode::Rewrite));
    assert_eq!(write_report("a\nb\n", "x.txt", 50), "Successfully wrote 2 lines to x.txt");
    assert_eq!(
        write_report("a\nb\nc", "x.txt", 2),
        "Successfully wrote 3 lines to x.txt\n\nWARNING: File has 3 lines (recommended max: 2). Consider smaller chunks."
    );
}

#[test]
fn listing_skips_hidden_and_root() {
    assert!(listing_keeps(0, ".hidden_root"));
    assert!(!listing_keeps(1, ".git"));
    assert!(listing_keeps(1, "src"));
    let entries = vec![(true, String::new()), (true, "src".to_string()), (false, "src/main.rs".to_string())];
    assert_eq!(format_listing(&entries), "[DIR] src\n[FILE] src/main.rs");
}

#[test]
fn glob_patterns() {
    assert!(glob_match("*.rs", "main.rs"));
    assert!(glob_match("*.RS", "main.rs"));
    assert!(glob_match("m?in.rs", "main.rs"));
    assert!(!glob_match("*.rs", "main.rc"));
    assert!(glob_match("", ""));
    assert!(!glob_match("a*", ""));
    assert!(glob_match("*", ""));
    assert!(glob_match("*", "anything at all"));
    assert!(glob_match("Cargo.toml", "cargo.TOML"));
    assert!(!glob_match("ab", "abc"));
}

#[test]
fn search_kinds_and_matches() {
    assert!(matches!(search_kind("glob"), SearchKind::Glob));
    assert!(matches!(search_kind("files"), SearchKind::Files));
    assert!(matches!(search_kind("content"), SearchKind::Content));
    assert!(matches!(search_kind("x"), SearchKind::Unknown));
    assert!(!search_keeps(".cache"));
    assert!(search_keeps("cache"));
    assert!(name_matches(&SearchKind::Files, "READ", "readme.md"));
    assert!(name_matches(&SearchKind::Glob, "*.md", "readme.md"));
    assert!(!name_matches(&SearchKind::Content, "read", "readme.md"));
    assert!(content_matches("HELLO", "say hello there"));
    assert!(!content_matches("bye", "say hello there"));
}

#[test]
fn search_reports() {
    let none: Vec<String> = vec![];
    assert_eq!(search_report(&none, "files", "x", "/r"), "No files found matching pattern 'x' in /r");
    let one = vec!["a.rs".to_string()];
    assert_eq!(search_report(&one, "glob", "*.rs", "/r"), "Found 1 matching file:\na.rs");
    let two = vec!["a.rs".to_string(), "b/c.rs".to_string()];
    assert_eq!(search_report(&two, "glob", "*.rs", "/r"), "Found 2 matching files:\na.rs\nb/c.rs");
}

#[test]
fn permissions_in_octal() {
    assert_eq!(permission_text(0o100644), "644");
    assert_eq!(permission_text(0o40755), "755");
    assert_eq!(permission_text(0o7), "7");
}

#[test]
fn blocked_commands() {
    let blocked = vec!["sudo".to_string(), "dd".to_string()];
    assert_eq!(check_blocked("sudo rm -rf /", &blocked), Err("Command 'sudo rm -rf /' is blocked.".to_string()));
    assert_eq!(check_blocked("echo x dd y", &blocked), Err("Command 'echo x dd y' is blocked.".to_string()));
    assert_eq!(check_blocked("add it", &blocked), Ok(()));
    assert_eq!(check_blocked("ls", &vec![]), Ok(()));
}

#[test]
fn run_output_reports() {
    assert_eq!(format_run_output("out", "", Some(0)), "[Exit code: 0]\nout");
    assert_eq!(format_run_output("", "", None), "[Exit code: -1]\nCommand completed with no output.");
    assert_eq!(format_run_output("o", "e", Some(2)), "[Exit code: 2]\no\n--- stderr ---\ne");
    assert_eq!(format_run_output("", "e", Some(1)), "[Exit code: 1]\ne");
}

#[test]
fn session_output_windows() {
    let out = vec!["l1".to_string(), "l2".to_string()];
    let err = vec!["e1".to_string()];
    assert_eq!(
        collect_output(&out, &err, true, 0, 10),
        "[Read 4 lines from line 0 (total: 4 lines, 0 remaining)] [PROCESS FINISHED]\n\nl1\nl2\n--- stderr ---\ne1"
    );
    assert_eq!(
        collect_output(&out, &err, false, -1, 10),
        "[Read 1 lines from line 3 (total: 4 lines, 0 remaining)]\n\ne1"
    );
    assert_eq!(collect_output(&out, &err, false, 4, 10), "[No new output]");
    assert_eq!(
        collect_output(&out, &vec![], false, -10, 1),
        "[Read 1 lines from line 0 (total: 2 lines, 1 remaining)]\n\nl1"
    );
}

#[test]
fn process_messages() {
    assert_eq!(started_message("ls", "s1", "out"), "Started process 'ls' (session: s1)\n\nout");
    assert_eq!(sent_message("héllo", "s1"), "Sent 6 bytes to process 's1'");
    assert_eq!(terminated_message("s1"), "Process 's1' terminated");
}

#[test]
fn path_normalisation() {
    assert_eq!(normalize_path("/home//user/./docs/"), "/home/user/docs");
    assert_eq!(normalize_path("a/../b"), "a/b");
    assert_eq!(normalize_path("/"), "/");
    assert_eq!(normalize_path(""), "");
}

#[test]
fn home_expansion() {
    assert_eq!(shellexpand("~/x", "/root"), "/root/x");
    assert_eq!(shellexpand("~", "/h"), "/h");
    assert_eq!(shellexpand("~x", "/h"), "~x");
    assert_eq!(shellexpand("/abs", "/h"), "/abs");
}

#[test]
fn allowed_directories() {
    let allowed = vec!["/home/user/".to_string()];
    assert_eq!(check_allowed("a", "/home/user/a", &allowed), Ok("/home/user/a".to_string()));
    assert_eq!(check_allowed("u", "/home/user", &allowed), Ok("/home/user".to_string()));
    assert_eq!(
        check_allowed("x", "/home/username", &allowed),
        Err("Path not allowed: x. Must be within: [\"/home/user/\"]".to_string())
    );
    let all = vec!["/".to_string()];
    assert_eq!(check_allowed("e", "/etc/passwd", &all), Ok("/etc/passwd".to_string()));
}

#[test]
fn sibling_directory_with_shared_prefix_is_refused() {
    let allowed = vec!["/tmp/a".to_string()];
    assert!(check_allowed("/tmp/ab/y", "/tmp/ab/y", &allowed).is_err());
    assert_eq!(check_allowed("/tmp/a/y", "/tmp/a/y", &allowed), Ok("/tmp/a/y".to_string()));
    assert_eq!(check_allowed("/tmp/a", "/tmp/a", &allowed), Ok("/tmp/a".to_string()));
    let trailing = vec!["/tmp/a/".to_string()];
    assert_eq!(check_allowed("y", "/tmp/a/y", &trailing), Ok("/tmp/a/y".to_string()));
}

#[test]
fn file_information_and_times() {
    let fi = file_info(12, false, true, 0o100644, Some((0, 0)), None);
    assert_eq!((fi.size, fi.is_directory, fi.is_file), (12, false, true));
    assert_eq!(fi.permissions, "644");
    assert_eq!(fi.modified, "1970-01-01T00:00:00+00:00");
    assert_eq!(fi.created, "");
    let later = file_info(0, true, false, 0o40755, Some((1431648000, 0)), Some((1431648000, 500_000_000)));
    assert_eq!(later.modified, "2015-05-15T00:00:00+00:00");
    assert_eq!(later.created, "2015-05-15T00:00:00.500+00:00");
    assert_eq!(later.permissions, "755");
    assert!(utc_representable(0, 999_999_999));
    assert!(!utc_representable(0, 1_000_000_000));
    assert!(utc_representable(59, 1_500_000_000));
    assert!(utc_representable(-1, 1_000_000_000));
    assert!(!utc_representable(-2, 1_000_000_000));
    assert!(utc_representable(MIN_UTC_SECS, 0));
    assert!(!utc_representable(MIN_UTC_SECS - 1, 0));
    assert!(utc_representable(MAX_UTC_SECS, 0));
    assert!(!utc_representable(MAX_UTC_SECS + 1, 0));
    assert!(!utc_representable(0, 2_000_000_000));
}
