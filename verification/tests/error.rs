use smol::error::{disk_full_hint, disk_full_hint_in_lowercase, io_error, AppError};

const HINT: &str = "Not enough disk space to write the output. Free up space and retry.";

#[test]
fn detects_english_no_space_left() {
    assert_eq!(
        disk_full_hint("error writing output file: No space left on device"),
        Some(HINT)
    );
}

#[test]
fn detection_is_case_insensitive() {
    assert_eq!(disk_full_hint("NO SPACE LEFT ON DEVICE"), Some(HINT));
}

#[test]
fn detects_chinese_disk_full() {
    assert_eq!(disk_full_hint("写入失败：磁盘空间不足"), Some(HINT));
}

#[test]
fn unrelated_error_returns_none() {
    assert_eq!(disk_full_hint("Invalid data found when processing input"), None);
}

#[test]
fn every_pattern_gives_the_hint() {
    let patterns = vec![
        "no space left on device",
        "not enough space",
        "insufficient space",
        "error writing file",
        "error writing output",
        "failed to write",
        "disk full",
        "enospc",
        "空间不足",
    ];
    for pattern in patterns {
        assert_eq!(disk_full_hint(pattern), Some(HINT));
        assert_eq!(disk_full_hint(&pattern.to_uppercase()), Some(HINT));
        assert_eq!(disk_full_hint(&format!("FFmpeg: {}!", pattern)), Some(HINT));
        assert_eq!(disk_full_hint_in_lowercase(pattern), Some(HINT));
    }
}

#[test]
fn text_in_small_letters_is_taken_as_it_is() {
    assert_eq!(disk_full_hint_in_lowercase("disk full"), Some(HINT));
    assert_eq!(disk_full_hint_in_lowercase("DISK FULL"), None);
    assert_eq!(disk_full_hint_in_lowercase(""), None);
}

#[test]
fn capitals_beyond_ascii_are_lowered_too() {
    // The Kelvin sign is a capital of the letter k.
    assert_eq!(disk_full_hint("DIS\u{212a} FULL"), Some(HINT));
}

#[test]
fn a_pattern_that_is_broken_up_gives_no_hint() {
    assert_eq!(disk_full_hint("disk  full"), None);
    assert_eq!(disk_full_hint("disk ful"), None);
    assert_eq!(disk_full_hint(""), None);
}

#[test]
fn messages_say_what_went_wrong() {
    assert_eq!(AppError::Io("denied".to_string()).message(), "IO error: denied");
    assert_eq!(
        AppError::PathDoesNotExist("C:\\a".to_string()).message(),
        "Path does not exist: C:\\a"
    );
    assert_eq!(AppError::Other("x".to_string()).message(), "x");
}

#[test]
fn a_copied_error_is_the_same() {
    assert!(matches!(AppError::Io("a".to_string()).copy(), AppError::Io(m) if m == "a"));
    assert!(matches!(
        AppError::PathDoesNotExist("b".to_string()).copy(),
        AppError::PathDoesNotExist(m) if m == "b"
    ));
    assert!(matches!(AppError::Other("c".to_string()).copy(), AppError::Other(m) if m == "c"));
}

#[test]
fn a_system_text_becomes_an_error() {
    assert!(matches!(io_error("denied".to_string()), AppError::Io(m) if m == "denied"));
}

#[test]
fn a_system_error_keeps_its_text() {
    let error = std::io::Error::new(std::io::ErrorKind::Other, "out of luck");
    assert!(matches!(AppError::from(error), AppError::Io(m) if m == "out of luck"));
}
