use smol::error::AppError;
use smol::pull::{
    finish_pull, plan_pull, pull_args, pull_device_files, PullOutcome, PullPlan, PullResult,
};

fn plan() -> PullPlan {
    plan_pull(r"C:\w", "k1".to_string(), "/sdcard/DCIM/a b.jpg".to_string())
}

#[test]
fn a_file_goes_into_the_directory_of_its_key() {
    let p = plan();
    assert_eq!(p.key, "k1");
    assert_eq!(p.dest_dir, r"C:\w\k1");
    assert_eq!(p.name, "a b.jpg");
    assert_eq!(p.local_path, r"C:\w\k1\a b.jpg");
    assert_eq!(p.remote_path, "/sdcard/DCIM/a b.jpg");
}

#[test]
fn the_name_is_what_follows_the_last_slash() {
    let name = |remote: &str| plan_pull("w", "k".to_string(), remote.to_string()).name;
    assert_eq!(name("plain"), "plain");
    assert_eq!(name("/a/b/c"), "c");
    assert_eq!(name("/a/"), "");
    assert_eq!(name(""), "");
}

#[test]
fn the_same_name_under_two_keys_goes_to_two_places() {
    let a = plan_pull(r"C:\w", "a".to_string(), "/x/p.jpg".to_string());
    let b = plan_pull(r"C:\w", "b".to_string(), "/y/p.jpg".to_string());
    assert_eq!(a.local_path, r"C:\w\a\p.jpg");
    assert_eq!(b.local_path, r"C:\w\b\p.jpg");
}

#[test]
fn a_literal_workspace_stays_literal() {
    let p = plan_pull(r"\\?\C:\w", "a".to_string(), "/x/p.jpg".to_string());
    assert_eq!(p.local_path, r"\\?\C:\w\a\p.jpg");
}

#[test]
fn a_name_with_a_drive_leads_elsewhere() {
    let p = plan_pull(r"C:\w", "a".to_string(), "/x/D:p.jpg".to_string());
    assert_eq!(p.local_path, "D:p.jpg");
}

#[test]
fn adb_gets_both_paths() {
    assert_eq!(pull_args(&plan()), vec!["pull", "/sdcard/DCIM/a b.jpg", r"C:\w\k1\a b.jpg"]);
}

#[test]
fn a_pulled_file_is_reported() {
    let out = finish_pull(plan(), PullOutcome::Pulled(Some(9))).ok().unwrap();
    assert_eq!(out.key, "k1");
    assert_eq!(out.local_path, r"C:\w\k1\a b.jpg");
    assert_eq!(out.name, "a b.jpg");
    assert_eq!(out.size, 9);
    assert_eq!(out.remote_path, "/sdcard/DCIM/a b.jpg");
    let out = finish_pull(plan(), PullOutcome::Pulled(None)).ok().unwrap();
    assert_eq!(out.size, 0);
}

#[test]
fn a_pull_that_failed_says_why() {
    let error = |outcome: PullOutcome| finish_pull(plan(), outcome).err().unwrap();
    assert!(matches!(
        error(PullOutcome::NoDirectory("denied".to_string())),
        AppError::Io(m) if m == "denied"
    ));
    assert!(matches!(
        error(PullOutcome::NoAdb(AppError::Other("none".to_string()))),
        AppError::Other(m) if m == "none"
    ));
    assert!(matches!(
        error(PullOutcome::NotStarted("x".to_string())),
        AppError::Other(m) if m == "adb pull failed: x"
    ));
    assert!(matches!(
        error(PullOutcome::Failed),
        AppError::Other(m)
            if m == "adb pull 失败：/sdcard/DCIM/a b.jpg，请确认设备已连接并启用 USB 调试"
    ));
}

fn is_hex_digit(c: char) -> bool {
    ('0'..='9').contains(&c) || ('a'..='f').contains(&c)
}

#[test]
fn every_file_of_a_batch_is_pulled_in_order() {
    let items = vec!["/a/x.jpg".to_string(), "/b/x.jpg".to_string(), "/c/y.jpg".to_string()];
    let mut batch = pull_device_files(items.clone(), r"C:\w".to_string());
    let mut size: u64 = 0;
    while let Some(plan) = batch.next_plan() {
        size += 1;
        assert!(batch.record(plan, PullOutcome::Pulled(Some(size))).is_ok());
    }
    assert!(!batch.failed);
    assert_eq!(batch.results.len(), 3);
    for i in 0..3 {
        let r: &PullResult = &batch.results[i];
        assert_eq!(r.remote_path, items[i]);
        assert_eq!(r.size, i as u64 + 1);
        assert_eq!(r.local_path, format!("C:\\w\\{}\\{}", r.key, r.name));
    }
    assert_ne!(batch.results[0].local_path, batch.results[1].local_path);
}

#[test]
fn a_key_is_a_random_uuid_without_hyphens() {
    let batch = pull_device_files(vec!["/a".to_string()], "w".to_string());
    let a = batch.next_plan().unwrap().key;
    let b = batch.next_plan().unwrap().key;
    assert_ne!(a, b);
    for key in vec![a, b] {
        let chars: Vec<char> = key.chars().collect();
        assert_eq!(chars.len(), 32);
        assert!(chars.iter().all(|c| is_hex_digit(*c)));
        assert_eq!(chars[12], '4');
        assert!(matches!(chars[16], '8' | '9' | 'a' | 'b'));
    }
}

#[test]
fn the_first_failure_ends_a_batch() {
    let items = vec!["/a".to_string(), "/b".to_string()];
    let mut batch = pull_device_files(items, "w".to_string());
    let first = batch.next_plan().unwrap();
    assert!(batch.record(first, PullOutcome::Pulled(None)).is_ok());
    let second = batch.next_plan().unwrap();
    assert_eq!(second.remote_path, "/b");
    let e = batch.record(second, PullOutcome::Failed).unwrap_err();
    assert!(matches!(
        e,
        AppError::Other(m) if m == "adb pull 失败：/b，请确认设备已连接并启用 USB 调试"
    ));
    assert_eq!(batch.results.len(), 1);
    assert!(batch.failed);
    assert!(batch.next_plan().is_none());
}

#[test]
fn an_empty_batch_has_nothing_to_pull() {
    assert!(pull_device_files(vec![], "w".to_string()).next_plan().is_none());
}
