use smol::error::AppError;
use smol::fs_bridge::{
    compute_replace_target, existing_path_info, get_path_info, is_supported, list_dir_supported,
    reveal_in_explorer, write_clipboard_image, DirRead, FoundFile, PathProbe,
};

#[test]
fn compute_replace_target_same_extension_returns_original() {
    let target = compute_replace_target(r"D:\music\song.mp4", r"D:\music\song_smol.mp4");
    assert_eq!(target, r"D:\music\song.mp4");
}

#[test]
fn compute_replace_target_different_extension_reuses_stem() {
    let target = compute_replace_target(r"D:\music\song.wav", r"D:\music\song_smol.mp3");
    assert_eq!(target, r"D:\music\song.mp3");
}

#[test]
fn compute_replace_target_extension_match_is_case_insensitive() {
    let target = compute_replace_target(r"D:\music\song.MP4", r"D:\music\song_smol.mp4");
    assert_eq!(target, r"D:\music\song.MP4");
}

#[test]
fn only_the_last_extension_is_replaced() {
    assert_eq!(compute_replace_target(r"D:\a.b\song.tar.wav", "x.mp3"), r"D:\a.b\song.tar.mp3");
    assert_eq!(compute_replace_target(r"D:\a.b\song", "x.mp3"), r"D:\a.b\song.mp3");
    assert_eq!(compute_replace_target(r"D:\a.b\.hidden", "x.mp3"), r"D:\a.b\.hidden.mp3");
}

#[test]
fn a_compressed_file_without_extension_takes_it_away() {
    assert_eq!(compute_replace_target(r"D:\song.wav", r"D:\x"), r"D:\song");
    assert_eq!(compute_replace_target(r"D:\song", r"D:\x"), r"D:\song");
}

#[test]
fn a_target_is_its_own_target() {
    let originals = vec![
        r"D:\a.b\song.tar.wav", r"D:\song", r"D:\.hidden", r"D:\song.MP3", r"D:\..", r"\\?\D:\x\song.wav",
    ];
    for original in originals {
        let target = compute_replace_target(original, r"D:\y.mp3");
        assert_eq!(compute_replace_target(&target, r"D:\y.mp3"), target);
    }
}

#[test]
fn a_path_without_a_file_name_is_its_own_target() {
    assert_eq!(compute_replace_target(r"D:\..", r"D:\x.mp3"), r"D:\..");
    assert_eq!(compute_replace_target(r"D:\", r"D:\x.mp3"), r"D:\");
}

#[test]
fn letters_beyond_ascii_do_not_match_in_another_case() {
    assert_eq!(compute_replace_target("a.Ä", "b.ä"), "a.ä");
}

#[test]
fn a_missing_path_is_no_error() {
    let info = get_path_info(r"C:\pics\Photo.JPG".to_string(), PathProbe::Missing).unwrap();
    assert!(!info.exists);
    assert!(!info.is_dir);
    assert_eq!(info.size, 0);
    assert_eq!(info.name, "Photo.JPG");
    assert_eq!(info.extension, None);
    assert_eq!(info.path, r"C:\pics\Photo.JPG");
}

#[test]
fn a_found_path_has_its_extension_in_small_letters() {
    let probe = PathProbe::Found { is_dir: false, size: 42 };
    let info = get_path_info(r"C:\pics\Photo.JPG".to_string(), probe).unwrap();
    assert!(info.exists);
    assert!(!info.is_dir);
    assert_eq!(info.size, 42);
    assert_eq!(info.name, "Photo.JPG");
    assert_eq!(info.extension, Some("jpg".to_string()));
    assert_eq!(info.path, r"C:\pics\Photo.JPG");
}

#[test]
fn a_found_directory_may_have_no_name() {
    let probe = PathProbe::Found { is_dir: true, size: 4096 };
    let info = get_path_info(r"C:\".to_string(), probe).unwrap();
    assert!(info.exists);
    assert!(info.is_dir);
    assert_eq!(info.name, "");
    assert_eq!(info.extension, None);
}

#[test]
fn an_unreadable_path_is_an_error() {
    let probe = PathProbe::Unreadable("denied".to_string());
    let e = get_path_info(r"C:\a".to_string(), probe).err().unwrap();
    assert!(matches!(e, AppError::Io(m) if m == "denied"));
}

#[test]
fn a_known_path_keeps_the_given_extension() {
    let info = existing_path_info("a/b.XYZ".to_string(), false, 1, Some("abc".to_string()));
    assert_eq!(info.name, "b.XYZ");
    assert_eq!(info.extension, Some("abc".to_string()));
}

#[test]
fn supported_extensions_are_those_of_media_and_documents() {
    let all = vec![
        "mp4", "mov", "mkv", "webm", "avi", "m4v", "wmv", "flv", "mp3", "m4a", "aac", "wav",
        "flac", "ogg", "opus", "wma", "jpg", "jpeg", "png", "webp", "heic", "heif", "avif", "bmp",
        "tiff", "pdf",
    ];
    for ext in all {
        assert!(is_supported(ext));
    }
    assert!(!is_supported("txt"));
    assert!(!is_supported("MP4"));
    assert!(!is_supported(""));
    assert!(!is_supported("mp"));
}

fn found(name: &str, is_file: bool, size: Result<u64, String>) -> FoundFile {
    FoundFile {
        path: format!("C:\\in\\{}", name),
        name_is_unicode: true,
        extension_is_unicode: true,
        is_file,
        size,
    }
}

#[test]
fn a_listing_has_the_supported_files_in_order() {
    let dir = DirRead::Entries(vec![
        found("b.MP4", true, Ok(10)),
        found("notes.txt", true, Ok(20)),
        found("folder.png", false, Ok(0)),
        found("plain", true, Ok(30)),
        found("a.pdf", true, Ok(40)),
    ]);
    let infos = list_dir_supported(r"C:\in".to_string(), dir).unwrap();
    assert_eq!(infos.len(), 2);
    assert!(infos[0].exists && infos[1].exists);
    assert!(!infos[0].is_dir && !infos[1].is_dir);
    assert_eq!(infos[0].name, "b.MP4");
    assert_eq!(infos[0].extension, Some("mp4".to_string()));
    assert_eq!(infos[0].size, 10);
    assert_eq!(infos[0].path, r"C:\in\b.MP4");
    assert_eq!(infos[1].name, "a.pdf");
    assert_eq!(infos[1].size, 40);
}

#[test]
fn a_file_without_a_readable_name_has_an_empty_one() {
    let mut file = found("x.png", true, Ok(1));
    file.name_is_unicode = false;
    let infos = list_dir_supported("d".to_string(), DirRead::Entries(vec![file])).unwrap();
    assert_eq!(infos[0].name, "");
    assert_eq!(infos[0].extension, Some("png".to_string()));
}

#[test]
fn a_file_without_a_readable_extension_is_left_out() {
    let mut file = found("x.png", true, Ok(1));
    file.name_is_unicode = false;
    file.extension_is_unicode = false;
    let infos = list_dir_supported("d".to_string(), DirRead::Entries(vec![file])).unwrap();
    assert!(infos.is_empty());
}

#[test]
fn a_listed_file_is_what_its_path_tells() {
    let dir = DirRead::Entries(vec![found("My Photo.JPG", true, Ok(12))]);
    let listed = list_dir_supported(r"C:\in".to_string(), dir).unwrap().remove(0);
    let probe = PathProbe::Found { is_dir: false, size: 12 };
    let info = get_path_info(listed.path.clone(), probe).unwrap();
    assert_eq!(listed.exists, info.exists);
    assert_eq!(listed.is_dir, info.is_dir);
    assert_eq!(listed.size, info.size);
    assert_eq!(listed.name, info.name);
    assert_eq!(listed.extension, info.extension);
    assert_eq!(listed.path, info.path);
}

#[test]
fn a_listed_file_without_a_size_ends_the_listing() {
    let dir = DirRead::Entries(vec![
        found("notes.txt", true, Err("first".to_string())),
        found("a.png", true, Ok(1)),
        found("b.png", true, Err("second".to_string())),
        found("c.png", true, Err("third".to_string())),
    ]);
    let e = list_dir_supported("d".to_string(), dir).err().unwrap();
    assert!(matches!(e, AppError::Io(m) if m == "second"));
}

#[test]
fn a_directory_that_cannot_be_listed_is_an_error() {
    let e = list_dir_supported("d".to_string(), DirRead::Missing).err().unwrap();
    assert!(matches!(e, AppError::PathDoesNotExist(p) if p == "d"));
    let e = list_dir_supported("d".to_string(), DirRead::Unreadable("denied".to_string()));
    assert!(matches!(e.err().unwrap(), AppError::Io(m) if m == "denied"));
    let none = list_dir_supported("d".to_string(), DirRead::Entries(vec![])).unwrap();
    assert!(none.is_empty());
}

#[test]
fn a_pasted_image_is_named_after_the_time() {
    let write = write_clipboard_image(vec![1, 2, 3], Some(1_723_456_789_012));
    assert_eq!(write.name, "smol_paste_1723456789012.png");
    assert_eq!(write.bytes, vec![1, 2, 3]);
    assert_eq!(write_clipboard_image(vec![], None).name, "smol_paste_0.png");
    assert_eq!(write_clipboard_image(vec![], Some(10)).name, "smol_paste_10.png");
    assert_ne!(
        write_clipboard_image(vec![7], Some(1)).name,
        write_clipboard_image(vec![7], Some(2)).name
    );
}

#[test]
fn explorer_is_told_to_select_the_file() {
    assert_eq!(reveal_in_explorer(r"C:\a b.png".to_string()), vec!["/select,", r"C:\a b.png"]);
}
