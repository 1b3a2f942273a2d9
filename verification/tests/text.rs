use smol::error::disk_full_hint;
use smol::fs_bridge::{get_path_info, PathProbe};
use smol::text::{
    chars_of, find_last, found_at, has_part, is_whitespace, lower_char, parse_u64,
    same_ignoring_ascii_case, same_text, split_lines, split_words, text_between, trimmed_len,
    write_decimal,
};

fn samples() -> Vec<&'static str> {
    vec![
        "",
        " ",
        "a",
        "a b",
        "  a  b\t\u{3000}c ",
        "\n",
        "a\n",
        "a\r\n",
        "a\r\nb\n\nc\r",
        "\r\n\r\n",
        "\r\r\n",
        "a\rb\n",
        "写入失败：磁盘空间不足",
        "x\u{85}y\u{a0}z",
        "a\u{200b}b",
    ]
}

#[test]
fn white_space_is_that_of_unicode() {
    for code in 0u32..=0x10ffff {
        if let Some(c) = char::from_u32(code) {
            assert_eq!(is_whitespace(c), c.is_whitespace(), "{:x}", code);
        }
    }
}

#[test]
fn small_letters_are_those_of_ascii() {
    for code in 0u32..=0x10ffff {
        if let Some(c) = char::from_u32(code) {
            assert_eq!(lower_char(c), c.to_ascii_lowercase(), "{:x}", code);
        }
    }
}

#[test]
fn characters_without_case_stay_as_they_are() {
    let ranges = vec![(0x3000u32, 0x303fu32), (0x4e00, 0x9fff), (0xff01, 0xff20)];
    for (first, last) in ranges {
        for code in first..=last {
            let c = char::from_u32(code).unwrap();
            let path = format!("x.A{}B", c);
            let probe = PathProbe::Found { is_dir: false, size: 0 };
            let info = get_path_info(path, probe).unwrap();
            assert_eq!(info.extension, Some(format!("a{}b", c)), "{:x}", code);
        }
    }
}

#[test]
fn ascii_capitals_are_lowered() {
    let all: String = (1u8..128).filter(|b| *b != b'/' && *b != b'\\' && *b != b'.').map(|b| b as char).collect();
    let probe = PathProbe::Found { is_dir: false, size: 0 };
    let info = get_path_info(format!("x.{}", all), probe).unwrap();
    assert_eq!(info.extension, Some(all.to_ascii_lowercase()));
}

#[test]
fn other_capitals_are_lowered_as_unicode_has_it() {
    let probe = PathProbe::Found { is_dir: false, size: 0 };
    let info = get_path_info("x.ÄΣİ".to_string(), probe).unwrap();
    assert_eq!(info.extension, Some("ÄΣİ".to_lowercase()));
    assert_eq!(disk_full_hint("ÄDISK FULLÄ").is_some(), true);
}

#[test]
fn words_are_split_at_white_space() {
    for text in samples() {
        let expected: Vec<&str> = text.split_whitespace().collect();
        assert_eq!(split_words(&chars_of(text)), expected);
    }
    assert_eq!(split_words(&chars_of(" a  bc ")), vec!["a", "bc"]);
}

#[test]
fn lines_are_split_at_line_feeds() {
    for text in samples() {
        let expected: Vec<&str> = text.lines().collect();
        assert_eq!(split_lines(text), expected);
    }
    assert_eq!(split_lines("a\r\n\nb\r"), vec!["a", "", "b\r"]);
}

#[test]
fn numbers_are_read_as_std_reads_them() {
    let texts = vec![
        "", "+", "-", "0", "00", "+0", "-0", "7", "+7", "++7", "7+", " 7", "7 ", "1_0", "0x1",
        "18446744073709551615", "18446744073709551616", "18446744073709551609",
        "018446744073709551615", "99999999999999999999", "１",
    ];
    for text in texts {
        assert_eq!(parse_u64(text), text.parse::<u64>().ok(), "{}", text);
    }
    assert_eq!(parse_u64("24576"), Some(24576));
}

#[test]
fn numbers_are_written_in_decimal() {
    for number in vec![0u128, 9, 10, 11, 99, 100, 1_723_456_789_012, u128::MAX] {
        assert_eq!(write_decimal(number), number.to_string());
    }
    assert_eq!(write_decimal(105), "105");
}

#[test]
fn a_written_number_reads_back() {
    for number in vec![0u64, 1, 10, 24576, u64::MAX] {
        assert_eq!(parse_u64(&write_decimal(number as u128)), Some(number));
    }
}

#[test]
fn parts_are_found_where_they_stand() {
    let text = chars_of("abcabd");
    assert!(found_at(&text, &chars_of("abd"), 3));
    assert!(!found_at(&text, &chars_of("abd"), 0));
    assert!(!found_at(&text, &chars_of("abd"), 4));
    assert!(found_at(&text, &chars_of(""), 6));
    assert!(!found_at(&text, &chars_of(""), 7));
    assert!(has_part(&text, &chars_of("cab")));
    assert!(!has_part(&text, &chars_of("cad")));
    assert!(has_part(&chars_of(""), &chars_of("")));
}

#[test]
fn texts_are_told_apart() {
    assert!(same_text("空间", "空间"));
    assert!(!same_text("a", "A"));
    assert!(!same_text("a", "ab"));
    assert!(same_ignoring_ascii_case("MP4", "mp4"));
    assert!(!same_ignoring_ascii_case("Ä", "ä"));
    assert!(!same_ignoring_ascii_case("a", "ab"));
}

#[test]
fn the_last_place_of_a_character_is_found() {
    assert_eq!(find_last(&chars_of("a.b.c"), '.'), Some(3));
    assert_eq!(find_last(&chars_of("abc"), '.'), None);
    assert_eq!(find_last(&chars_of(""), '.'), None);
}

#[test]
fn only_the_end_is_trimmed() {
    let ends = chars_of("\r\n");
    assert_eq!(trimmed_len(&chars_of("\ra\r\n\r"), &ends), 2);
    assert_eq!(trimmed_len(&chars_of("\r\n"), &ends), 0);
    assert_eq!(trimmed_len(&chars_of("a"), &ends), 1);
}

#[test]
fn a_text_can_be_cut_out() {
    let chars = chars_of("空间不足");
    assert_eq!(text_between(&chars, 1, 3), "间不");
    assert_eq!(text_between(&chars, 2, 2), "");
}
