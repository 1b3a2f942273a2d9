use smol::deliver::{
    choose_destination, deliver_to_device, push_args, Action, Delivery, Destination, Event,
};
use smol::error::AppError;

fn start(mode: &str, remote_dir: Option<&str>, pc_dir: Option<&str>) -> Delivery {
    deliver_to_device(
        r"C:\w\k\a_smol.jpg".to_string(),
        mode.to_string(),
        "/sdcard/a.jpg".to_string(),
        remote_dir.map(|d| d.to_string()),
        pc_dir.map(|d| d.to_string()),
        "a_smol.jpg".to_string(),
        Some(r"C:\Users\me".to_string()),
    )
}

fn error_text(delivery: &Delivery) -> String {
    match delivery.action() {
        Action::Finish(Err(AppError::Other(message))) => message,
        _ => panic!("no error"),
    }
}

fn asks_for_rescue(delivery: &Delivery) -> bool {
    matches!(
        delivery.action(),
        Action::Rescue(dir, from, to)
            if dir == r"C:\Users\me\Documents\Smol\recovered"
                && from == r"C:\w\k\a_smol.jpg"
                && to == r"C:\Users\me\Documents\Smol\recovered\a_smol.jpg"
    )
}

const KEPT: &str = r"；压缩结果已复制到 C:\Users\me\Documents\Smol\recovered\a_smol.jpg";

#[test]
fn a_pc_folder_gets_a_copy() {
    let mut d = start("pc-folder", None, Some(r"E:\out"));
    assert!(matches!(
        d.action(),
        Action::Copy(dir, from, to)
            if dir == r"E:\out" && from == r"C:\w\k\a_smol.jpg" && to == r"E:\out\a_smol.jpg"
    ));
    d.advance(Event::Done);
    assert!(matches!(d.action(), Action::Finish(Ok(r)) if r.note.is_none()));
}

#[test]
fn a_device_folder_gets_a_push() {
    for dir in vec!["/sdcard/out", "/sdcard/out/", "/sdcard/out//"] {
        let d = start("android-folder", Some(dir), None);
        assert!(matches!(
            d.action(),
            Action::Push(from, to)
                if from == r"C:\w\k\a_smol.jpg" && to == "/sdcard/out/a_smol.jpg"
        ));
    }
    let d = start("android-folder", Some("/"), None);
    assert!(matches!(d.action(), Action::Push(_, to) if to == "/a_smol.jpg"));
}

#[test]
fn replacing_pushes_onto_the_original() {
    let mut d = start("replace", Some("/x"), Some("y"));
    assert!(matches!(d.action(), Action::Push(_, to) if to == "/sdcard/a.jpg"));
    d.advance(Event::Done);
    assert!(matches!(d.action(), Action::Finish(Ok(_))));
}

#[test]
fn a_missing_folder_is_an_error_after_the_rescue() {
    let mut d = start("pc-folder", Some("/x"), None);
    assert!(asks_for_rescue(&d));
    d.advance(Event::Rescued);
    assert_eq!(error_text(&d), format!("未选择 PC 输出目录{}", KEPT));
    let mut d = start("android-folder", None, Some("y"));
    assert!(asks_for_rescue(&d));
    d.advance(Event::NotRescued);
    assert_eq!(error_text(&d), "未选择设备目标目录");
}

#[test]
fn an_unknown_mode_is_an_error() {
    let mut d = start("Replace", None, None);
    assert!(asks_for_rescue(&d));
    d.advance(Event::NotRescued);
    assert_eq!(error_text(&d), "未知交付模式: Replace");
}

#[test]
fn every_failure_is_followed_by_a_rescue() {
    let base = |event: Event| {
        let mut d = start("replace", None, None);
        d.advance(event);
        assert!(asks_for_rescue(&d));
        d.advance(Event::NotRescued);
        error_text(&d)
    };
    assert_eq!(base(Event::FileError("denied".to_string())), "IO error: denied");
    assert_eq!(base(Event::NoAdb(AppError::Other("none".to_string()))), "none");
    assert_eq!(base(Event::NotStarted("x".to_string())), "adb push failed: x");
    assert_eq!(base(Event::PushFailed), "adb push 失败：请确认设备已连接并启用 USB 调试");
}

#[test]
fn a_rescued_file_is_named_in_the_message() {
    let mut d = start("replace", None, None);
    d.advance(Event::PushFailed);
    d.advance(Event::Rescued);
    assert_eq!(
        error_text(&d),
        format!("adb push 失败：请确认设备已连接并启用 USB 调试{}", KEPT)
    );
}

#[test]
fn without_a_profile_folder_nothing_is_rescued() {
    let mut d = deliver_to_device(
        "l".to_string(),
        "replace".to_string(),
        "/r".to_string(),
        None,
        None,
        "n".to_string(),
        None,
    );
    d.advance(Event::PushFailed);
    assert_eq!(error_text(&d), "adb push 失败：请确认设备已连接并启用 USB 调试");
    let d = deliver_to_device(
        "l".to_string(),
        "?".to_string(),
        "/r".to_string(),
        None,
        None,
        "n".to_string(),
        None,
    );
    assert_eq!(error_text(&d), "未知交付模式: ?");
}

#[test]
fn events_that_answer_nothing_change_nothing() {
    let mut d = start("replace", None, None);
    d.advance(Event::Rescued);
    assert!(matches!(d.action(), Action::Push(_, _)));
    d.advance(Event::PushFailed);
    d.advance(Event::Done);
    assert!(asks_for_rescue(&d));
    d.advance(Event::NotRescued);
    d.advance(Event::Done);
    d.advance(Event::Rescued);
    assert_eq!(error_text(&d), "adb push 失败：请确认设备已连接并启用 USB 调试");
}

#[test]
fn destinations_follow_the_mode() {
    let choose = |mode: &str| {
        choose_destination(
            mode,
            "/r".to_string(),
            Some("/d/".to_string()),
            Some(r"E:\".to_string()),
            "n",
        )
    };
    assert!(matches!(
        choose("pc-folder"),
        Ok(Destination::Folder(dir, file)) if dir == r"E:\" && file == r"E:\n"
    ));
    assert!(matches!(choose("android-folder"), Ok(Destination::Device(p)) if p == "/d/n"));
    assert!(matches!(choose("replace"), Ok(Destination::Device(p)) if p == "/r"));
    assert!(matches!(choose(""), Err(AppError::Other(m)) if m == "未知交付模式: "));
}

#[test]
fn adb_pushes_from_here_to_there() {
    assert_eq!(push_args("a", "/b"), vec!["push", "a", "/b"]);
}
