use smol::import::{
    base64_to_pidl_bytes, compute_import_dir, has_enough_space, pidl_bytes_to_base64,
    resolve_device_target, DeviceTarget, Mode,
};

#[test]
fn mode_from_str_parses_kebab_case() {
    assert!(matches!(Mode::from("same-folder"), Mode::SameFolder));
    assert!(matches!(Mode::from("subfolder"), Mode::Subfolder));
    assert!(matches!(Mode::from("replace"), Mode::Replace));
    assert!(matches!(Mode::from("custom"), Mode::CustomLocal));
    assert!(matches!(Mode::from("bogus"), Mode::SameFolder));
}

#[test]
fn resolve_same_folder_uses_new_name() {
    let t = resolve_device_target("same-folder", "IMG_smol.jpg", "IMG.jpg", "s");
    assert!(matches!(t.mode, Mode::SameFolder));
    assert_eq!(t.name, "IMG_smol.jpg");
    assert!(t.rename_from.is_empty());
}

#[test]
fn resolve_subfolder_sets_create_flag() {
    let t = resolve_device_target("subfolder", "IMG_smol.jpg", "IMG.jpg", "s");
    assert!(matches!(t.mode, Mode::Subfolder));
    assert!(t.create_subfolder);
}

#[test]
fn resolve_replace_uses_salted_temp_and_rename() {
    let t = resolve_device_target("replace", "IMG_smol.jpg", "IMG.jpg", "a1b2c3d4");
    assert!(matches!(t.mode, Mode::Replace));
    assert_eq!(t.name, "IMG.a1b2c3d4.smol_tmp.jpg");
    assert_eq!(t.rename_from, "IMG.jpg");
}

#[test]
fn resolve_custom_is_local() {
    let t = resolve_device_target("custom", "IMG_smol.jpg", "IMG.jpg", "s");
    assert!(matches!(t.mode, Mode::CustomLocal));
}

#[test]
fn compute_import_dir_joins_workspace_and_uuid() {
    assert_eq!(compute_import_dir(r"C:\Smol\imports", "abc-123"), r"C:\Smol\imports\abc-123");
}

#[test]
fn has_enough_space_rules() {
    assert!(has_enough_space(1024, 512));
    assert!(!has_enough_space(512, 1024));
    assert!(has_enough_space(0, 0)); // unknown size -> skip
}

#[test]
fn pidl_base64_round_trips() {
    let bytes = vec![0x14u8, 0x00, 0x1f, 0x50, 0x00, 0x00];
    let b64 = pidl_bytes_to_base64(&bytes);
    assert_eq!(base64_to_pidl_bytes(&b64).unwrap(), bytes);
}

#[test]
fn only_the_replacing_plan_renames() {
    let plain = |mode: Mode, create_subfolder: bool| DeviceTarget {
        mode,
        name: "n".to_string(),
        rename_from: String::new(),
        create_subfolder,
        note: None,
    };
    assert_eq!(resolve_device_target("same-folder", "n", "o", "s"), plain(Mode::SameFolder, false));
    assert_eq!(resolve_device_target("", "n", "o", "s"), plain(Mode::SameFolder, false));
    assert_eq!(resolve_device_target("subfolder", "n", "o", "s"), plain(Mode::Subfolder, true));
    assert_eq!(resolve_device_target("custom", "n", "o", "s"), plain(Mode::CustomLocal, false));
    let t = resolve_device_target("replace", "n", "o", "s");
    assert!(!t.create_subfolder);
    assert_eq!(t.note, None);
}

#[test]
fn a_temporary_name_keeps_the_extension() {
    let name = |original: &str| resolve_device_target("replace", "n", original, "s").name;
    assert_eq!(name("a.tar.gz"), "a.tar.s.smol_tmp.gz");
    assert_eq!(name("plain"), "plain.s.smol_tmp");
    assert_eq!(name("dot."), "dot.s.smol_tmp");
    assert_eq!(name(".hidden"), ".s.smol_tmp.hidden");
    assert_eq!(name(""), ".s.smol_tmp");
}

#[test]
fn a_temporary_name_is_another_for_every_salt() {
    let name = |salt: &str| resolve_device_target("replace", "n", "IMG.jpg", salt).name;
    assert_ne!(name("a"), name("b"));
    assert_ne!(name(""), "IMG.jpg");
    assert_eq!(name(""), "IMG..smol_tmp.jpg");
}

#[test]
fn a_workspace_without_backslashes_gets_a_slash() {
    assert_eq!(compute_import_dir("/home/me", "k"), "/home/me/k");
    assert_eq!(compute_import_dir("", "k"), "/k");
    assert_eq!(compute_import_dir(r"\", "k"), r"\\k");
    assert_ne!(compute_import_dir("w", "a"), compute_import_dir("w", "b"));
}

#[test]
fn space_that_just_suffices_is_enough() {
    assert!(has_enough_space(7, 7));
    assert!(!has_enough_space(6, 7));
    assert!(has_enough_space(u64::MAX, u64::MAX));
}

#[test]
fn base64_text_is_the_standard_one() {
    assert_eq!(pidl_bytes_to_base64(b""), "");
    assert_eq!(pidl_bytes_to_base64(b"f"), "Zg==");
    assert_eq!(pidl_bytes_to_base64(b"fo"), "Zm8=");
    assert_eq!(pidl_bytes_to_base64(b"foo"), "Zm9v");
    assert_eq!(pidl_bytes_to_base64(b"foobar"), "Zm9vYmFy");
    assert_eq!(pidl_bytes_to_base64(&vec![0xfb, 0xff, 0xfe]), "+//+");
}

#[test]
fn texts_that_no_bytes_have_are_refused() {
    assert_eq!(base64_to_pidl_bytes("Zg"), None);
    assert_eq!(base64_to_pidl_bytes("Zg="), None);
    assert_eq!(base64_to_pidl_bytes("Zh=="), None);
    assert_eq!(base64_to_pidl_bytes("Zm9v\n"), None);
    assert_eq!(base64_to_pidl_bytes("Zm_v"), None);
    assert_eq!(base64_to_pidl_bytes("Zg==Zg=="), None);
    assert_eq!(base64_to_pidl_bytes("===="), None);
    assert_eq!(base64_to_pidl_bytes(""), Some(vec![]));
    assert_eq!(base64_to_pidl_bytes("Zm8="), Some(b"fo".to_vec()));
}

#[test]
fn all_bytes_come_back_from_base64() {
    let mut bytes: Vec<u8> = Vec::new();
    for b in 0u8..=255 {
        bytes.push(b);
        let encoded = pidl_bytes_to_base64(&bytes);
        assert_eq!(encoded.len(), 4 * ((bytes.len() + 2) / 3));
        assert_eq!(base64_to_pidl_bytes(&encoded), Some(bytes.clone()));
    }
}
