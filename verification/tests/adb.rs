use smol::adb::{
    adb_dirs, adb_path, adb_program, list_device_args, list_device_dir, parse_ls_line,
    parse_ls_output, AdbReply, AdbSearch, DeviceEntry,
};
use smol::error::AppError;

#[test]
fn parses_regular_file() {
    let e = parse_ls_line("-rw-rw---- 1 root sdcard_rw 24576 2024-01-01 10:00 IMG_1.jpg").unwrap();
    assert_eq!(e.name, "IMG_1.jpg");
    assert!(!e.is_dir);
    assert_eq!(e.size, 24576);
}

#[test]
fn parses_directory() {
    let e = parse_ls_line("drwxrwx--x 2 root sdcard_rw  4096 2024-01-01 10:00 DCIM").unwrap();
    assert!(e.is_dir);
    assert_eq!(e.name, "DCIM");
}

#[test]
fn skips_dot_entries() {
    let out = parse_ls_output("drwxrwx--x 1 root sdcard_rw 4096 2024-01-01 10:00 .\ndrwxrwx--x 1 root sdcard_rw 4096 2024-01-01 10:00 ..\n-rw-rw---- 1 root sdcard_rw 123 2024-01-01 10:00 a.txt");
    assert_eq!(out.len(), 1);
    assert_eq!(out[0].name, "a.txt");
}

#[test]
fn tolerates_odd_lines() {
    assert!(parse_ls_line("").is_none());
    assert!(parse_ls_line("total 128").is_none());
    assert!(parse_ls_output("garbage\n").is_empty());
}

#[test]
fn a_line_may_end_with_any_line_ends() {
    let e = parse_ls_line("-rw-rw---- 1 root sdcard_rw 7 2024-01-01 10:00 a.txt\r\n\r").unwrap();
    assert_eq!(e, DeviceEntry { name: "a.txt".to_string(), is_dir: false, size: 7 });
}

#[test]
fn a_name_with_blanks_keeps_its_last_word() {
    let e = parse_ls_line("-rw-rw---- 1 root sdcard_rw 7 2024-01-01 10:00 my photo.jpg").unwrap();
    assert_eq!(e.name, "photo.jpg");
}

#[test]
fn a_row_with_seven_words_has_no_name() {
    assert!(parse_ls_line("-rw-rw---- 1 root sdcard_rw 7 2024-01-01 10:00").is_none());
}

#[test]
fn the_size_must_be_a_number_that_fits() {
    assert!(parse_ls_line("-rw 1 root rw 12x 2024-01-01 10:00 a.txt").is_none());
    assert!(parse_ls_line("-rw 1 root rw -1 2024-01-01 10:00 a.txt").is_none());
    assert!(parse_ls_line("-rw 1 root rw 18446744073709551616 2024-01-01 10:00 a.txt").is_none());
    let e = parse_ls_line("-rw 1 root rw 18446744073709551615 2024-01-01 10:00 a.txt").unwrap();
    assert_eq!(e.size, u64::MAX);
    let e = parse_ls_line("-rw 1 root rw +15 2024-01-01 10:00 a.txt").unwrap();
    assert_eq!(e.size, 15);
}

#[test]
fn a_row_that_starts_like_the_summary_is_left_out() {
    assert!(parse_ls_line("totally 1 root rw 5 2024-01-01 10:00 a.txt").is_none());
}

#[test]
fn appended_outputs_give_both_lists() {
    let a = "total 8\r\n-rw 1 root rw 1 2024-01-01 10:00 a.txt";
    let b = "drwx 1 root rw 2 2024-01-01 10:00 b\nodd\n";
    let both = parse_ls_output(&format!("{}\n{}", a, b));
    let mut apart = parse_ls_output(a);
    apart.extend(parse_ls_output(b));
    assert_eq!(both, apart);
    assert_eq!(both.len(), 2);
    assert!(!both[0].is_dir);
    assert!(both[1].is_dir);
}

#[test]
fn a_path_is_quoted_for_the_shell() {
    assert_eq!(list_device_args("/sdcard/DCIM"), vec!["shell", "ls -la '/sdcard/DCIM'"]);
    assert_eq!(list_device_args("/a b/it's"), vec!["shell", "ls -la '/a b/it'\\''s'"]);
    assert_eq!(list_device_args(""), vec!["shell", "ls -la ''"]);
    assert_eq!(list_device_args("'"), vec!["shell", "ls -la ''\\'''"]);
}

#[test]
fn a_listing_is_parsed_from_what_was_printed() {
    let stdout = "-rw 1 root rw 5 2024-01-01 10:00 照片.jpg\n".as_bytes().to_vec();
    let entries = list_device_dir(AdbReply::Exited { success: true, stdout }).unwrap();
    assert_eq!(entries.len(), 1);
    assert_eq!(entries[0].name, "照片.jpg");
    assert_eq!(entries[0].size, 5);
}

#[test]
fn printed_bytes_that_are_no_text_are_repaired() {
    let mut stdout = b"-rw 1 root rw 5 2024-01-01 10:00 a".to_vec();
    stdout.push(0xff);
    stdout.extend(b"b.jpg\n".to_vec());
    let entries = list_device_dir(AdbReply::Exited { success: true, stdout }).unwrap();
    assert_eq!(entries.len(), 1);
    assert_eq!(entries[0].name, "a\u{fffd}b.jpg");
}

#[test]
fn a_listing_that_failed_says_why() {
    let e = list_device_dir(AdbReply::NotStarted("no such file".to_string())).unwrap_err();
    assert!(matches!(e, AppError::Other(m) if m == "adb shell failed: no such file"));
    let stdout = b"-rw 1 root rw 5 2024-01-01 10:00 a.jpg".to_vec();
    let e = list_device_dir(AdbReply::Exited { success: false, stdout }).unwrap_err();
    assert!(matches!(
        e,
        AppError::Other(m) if m == "无法列出设备目录：请确认设备已连接并启用 USB 调试"
    ));
}

#[test]
fn the_app_directory_comes_first_in_the_search() {
    assert_eq!(adb_dirs(Some("app"), vec!["x", "y"]), vec!["app", "x", "y"]);
    assert_eq!(adb_dirs(None, vec!["x", "y"]), vec!["x", "y"]);
    assert_eq!(adb_dirs(Some("app"), vec![]), vec!["app"]);
    assert_eq!(adb_program(), "adb.exe");
}

#[test]
fn the_first_directory_with_the_program_is_used() {
    assert!(matches!(adb_path(3, &vec![]), AdbSearch::Look(0)));
    assert!(matches!(adb_path(3, &vec![false]), AdbSearch::Look(1)));
    assert!(matches!(adb_path(3, &vec![false, true]), AdbSearch::Use(1)));
    assert!(matches!(adb_path(3, &vec![false, true, true]), AdbSearch::Use(1)));
    assert!(matches!(adb_path(3, &vec![true, true]), AdbSearch::Use(0)));
}

#[test]
fn a_search_without_a_hit_is_an_error() {
    let message = "adb not found — run scripts/fetch-adb.mjs";
    assert!(matches!(
        adb_path(2, &vec![false, false]),
        AdbSearch::Missing(AppError::Other(m)) if m == message
    ));
    assert!(matches!(
        adb_path(0, &vec![]),
        AdbSearch::Missing(AppError::Other(m)) if m == message
    ));
}
