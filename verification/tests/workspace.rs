use smol::error::AppError;
use smol::workspace::{get_import_workspace, recovered_dir};

#[test]
fn folders_lie_below_the_documents() {
    assert_eq!(
        get_import_workspace(Some(r"C:\Users\me".to_string())).unwrap(),
        r"C:\Users\me\Documents\Smol\imports"
    );
    assert_eq!(
        recovered_dir(Some(r"C:\Users\me".to_string())).unwrap(),
        r"C:\Users\me\Documents\Smol\recovered"
    );
}

#[test]
fn folders_lie_below_a_literal_profile_too() {
    let profiles = vec![
        r"\\?\C:\Users\u", r"\\?\UNC\server\share\u", r"\\?\UNC\server\share", r"\\?\UNC\server",
        r"\\?\UNC", r"\\?\C:", r"\\?\thing", r"\\?", r"\\server\share\u", "u",
    ];
    for profile in profiles {
        assert_eq!(
            get_import_workspace(Some(profile.to_string())).unwrap(),
            format!("{}\\Documents\\Smol\\imports", profile)
        );
    }
    assert_eq!(
        get_import_workspace(Some(r"\\?\C:\Users\\u".to_string())).unwrap(),
        r"\\?\C:\Users\u\Documents\Smol\imports"
    );
}

#[test]
fn a_profile_folder_may_end_in_a_separator() {
    assert_eq!(
        get_import_workspace(Some(r"C:\".to_string())).unwrap(),
        r"C:\Documents\Smol\imports"
    );
}

#[test]
fn without_a_profile_folder_there_is_an_error() {
    assert!(matches!(
        get_import_workspace(None).unwrap_err(),
        AppError::Other(m) if m == "USERPROFILE not set"
    ));
    assert!(matches!(
        recovered_dir(None).unwrap_err(),
        AppError::Other(m) if m == "USERPROFILE not set"
    ));
}
