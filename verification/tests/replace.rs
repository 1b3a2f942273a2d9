use smol::error::AppError;
use smol::replace::{replace_original, Action, Event, Found, Replacement};

const COMPRESSED: &str = r"D:\music\song_smol.mp3";
const ORIGINAL: &str = r"D:\music\song.wav";
const TARGET: &str = r"D:\music\song.mp3";

fn start() -> Replacement {
    replace_original(COMPRESSED.to_string(), ORIGINAL.to_string())
}

fn after(events: Vec<Event>) -> Replacement {
    let mut r = start();
    for event in events {
        r.advance(event);
    }
    r
}

fn recycled() -> Replacement {
    after(vec![Event::Measured(5), Event::Measured(9), Event::Recycled])
}

#[test]
fn a_smaller_file_takes_the_place_of_the_original() {
    let mut r = start();
    assert!(matches!(r.action(), Action::Measure(p) if p == COMPRESSED));
    r.advance(Event::Measured(5));
    assert!(matches!(r.action(), Action::Measure(p) if p == ORIGINAL));
    r.advance(Event::Measured(9));
    assert!(matches!(r.action(), Action::Recycle(p) if p == ORIGINAL));
    r.advance(Event::Recycled);
    assert!(matches!(r.action(), Action::Check(c, p) if c == COMPRESSED && p == TARGET));
    r.advance(Event::Checked(Found::Nothing));
    assert!(matches!(r.action(), Action::Rename(a, b) if a == COMPRESSED && b == TARGET));
    r.advance(Event::Renamed);
    assert!(matches!(r.action(), Action::Finish(Ok(p)) if p == TARGET));
    assert_eq!(r.target(), TARGET);
}

fn recycled_with(compressed: &str, original: &str) -> Replacement {
    let mut r = replace_original(compressed.to_string(), original.to_string());
    r.advance(Event::Measured(5));
    r.advance(Event::Measured(9));
    assert!(matches!(r.action(), Action::Recycle(p) if p == original));
    r.advance(Event::Recycled);
    r
}

#[test]
fn a_compressed_file_in_its_final_place_stays_there() {
    let mut r = recycled_with(r"D:\m\song.mp3", r"D:\m\song.wav");
    assert!(matches!(r.action(), Action::Finish(Ok(p)) if p == r"D:\m\song.mp3"));
    r.advance(Event::Checked(Found::AnotherFile));
    assert!(matches!(r.action(), Action::Finish(Ok(p)) if p == r"D:\m\song.mp3"));
}

#[test]
fn a_failure_to_recycle_leaves_such_a_file_alone() {
    let mut r = replace_original(r"D:\m\song.mp3".to_string(), r"D:\m\song.wav".to_string());
    r.advance(Event::Measured(5));
    r.advance(Event::Measured(9));
    r.advance(Event::NotRecycled("full".to_string()));
    assert!(matches!(r.action(), Action::Finish(Err(AppError::Other(_)))));
}

#[test]
fn the_compressed_file_under_another_path_is_never_removed() {
    let ways = vec![
        (r"D:\m\SONG.mp3", r"D:\m\song.wav", r"D:\m\song.mp3"),
        ("D:/m/song.mp3", r"D:\m\song.wav", r"D:\m\song.mp3"),
        (r"D:\m\song.mp3", r"D:\m\x\..\song.wav", r"D:\m\x\..\song.mp3"),
        (r"D:\MYMUSI~1\song.mp3", r"D:\My Music\song.wav", r"D:\My Music\song.mp3"),
    ];
    for (compressed, original, target) in ways {
        for found in vec![Found::CompressedFile, Found::Unsure] {
            let mut r = recycled_with(compressed, original);
            assert!(matches!(r.action(), Action::Check(c, p) if c == compressed && p == target));
            r.advance(Event::Checked(found));
            assert!(matches!(r.action(), Action::Rename(a, b) if a == compressed && b == target));
            r.advance(Event::Renamed);
            assert!(matches!(r.action(), Action::Finish(Ok(p)) if p == target));
        }
    }
}

#[test]
fn another_file_at_the_target_is_still_removed() {
    for compressed in vec![r"D:\out\song.mp3", r"D:\m\SONG.mp3"] {
        let mut r = recycled_with(compressed, r"D:\m\song.wav");
        r.advance(Event::Checked(Found::AnotherFile));
        assert!(matches!(r.action(), Action::Remove(p) if p == r"D:\m\song.mp3"));
    }
}

#[test]
fn what_is_in_the_way_is_removed_first() {
    let mut r = recycled();
    r.advance(Event::Checked(Found::AnotherFile));
    assert!(matches!(r.action(), Action::Remove(p) if p == TARGET));
    r.advance(Event::Removed);
    assert!(matches!(r.action(), Action::Rename(_, _)));
}

#[test]
fn a_file_that_cannot_be_measured_does_not_exist() {
    let r = after(vec![Event::NotMeasured]);
    assert!(matches!(
        r.action(),
        Action::Finish(Err(AppError::PathDoesNotExist(p))) if p == COMPRESSED
    ));
    let r = after(vec![Event::Measured(5), Event::NotMeasured]);
    assert!(matches!(
        r.action(),
        Action::Finish(Err(AppError::PathDoesNotExist(p))) if p == ORIGINAL
    ));
}

#[test]
fn a_file_that_is_not_smaller_is_refused() {
    for size in vec![9u64, 10] {
        let r = after(vec![Event::Measured(size), Event::Measured(9)]);
        assert!(matches!(
            r.action(),
            Action::Finish(Err(AppError::Other(m)))
                if m == "Compressed file is not smaller than the original → refusing to replace"
        ));
    }
}

#[test]
fn a_failure_to_recycle_ends_it() {
    let r = after(vec![
        Event::Measured(5),
        Event::Measured(9),
        Event::NotRecycled("full".to_string()),
    ]);
    assert!(matches!(
        r.action(),
        Action::Finish(Err(AppError::Other(m)))
            if m == "Failed to move original to Recycle Bin: full"
    ));
}

#[test]
fn a_failure_to_remove_ends_it() {
    let mut r = recycled();
    r.advance(Event::Checked(Found::AnotherFile));
    r.advance(Event::NotRemoved("denied".to_string()));
    assert!(matches!(r.action(), Action::Finish(Err(AppError::Io(m))) if m == "denied"));
}

#[test]
fn a_held_file_is_tried_six_times() {
    let mut r = recycled();
    r.advance(Event::Checked(Found::Nothing));
    for _ in 0..5 {
        assert!(matches!(r.action(), Action::Rename(_, _)));
        r.advance(Event::NotRenamed(Some(32), "held".to_string()));
        assert!(matches!(r.action(), Action::Wait(100)));
        r.advance(Event::Waited);
    }
    assert!(matches!(r.action(), Action::Rename(_, _)));
    r.advance(Event::NotRenamed(Some(32), "held".to_string()));
    assert!(matches!(
        r.action(),
        Action::Finish(Err(AppError::Other(m))) if m == "Failed to move compressed file: held"
    ));
}

#[test]
fn a_held_file_may_be_let_go() {
    let mut r = recycled();
    r.advance(Event::Checked(Found::Nothing));
    r.advance(Event::NotRenamed(Some(32), "held".to_string()));
    r.advance(Event::Waited);
    r.advance(Event::Renamed);
    assert!(matches!(r.action(), Action::Finish(Ok(p)) if p == TARGET));
}

#[test]
fn any_other_failure_to_rename_ends_it() {
    for code in vec![Some(5), None] {
        let mut r = recycled();
        r.advance(Event::Checked(Found::Nothing));
        r.advance(Event::NotRenamed(code, "bad".to_string()));
        assert!(matches!(
            r.action(),
            Action::Finish(Err(AppError::Other(m))) if m == "Failed to move compressed file: bad"
        ));
    }
}

#[test]
fn an_outcome_is_final() {
    let mut r = after(vec![Event::NotMeasured]);
    r.advance(Event::Measured(1));
    r.advance(Event::Renamed);
    assert!(matches!(r.action(), Action::Finish(Err(AppError::PathDoesNotExist(_)))));
}

#[test]
fn answers_to_another_question_change_nothing() {
    let mut r = start();
    r.advance(Event::Renamed);
    r.advance(Event::Recycled);
    r.advance(Event::Waited);
    r.advance(Event::Checked(Found::AnotherFile));
    r.advance(Event::Removed);
    assert!(matches!(r.action(), Action::Measure(p) if p == COMPRESSED));
}
