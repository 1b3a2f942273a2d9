use smol::spike::{
    format_display_names, parse_round_trips, read_display_name, spike_echo, spike_parse_path,
    spike_pick, ParentProbe, PickOutcome, ShellParse,
};

#[test]
fn a_name_is_parsed_when_the_call_succeeds_and_gives_an_item() {
    for succeeded in vec![false, true] {
        for has_item in vec![false, true] {
            let expected = succeeded && has_item;
            assert_eq!(parse_round_trips(ShellParse { succeeded, has_item }), expected);
            assert_eq!(spike_parse_path(ShellParse { succeeded, has_item }), expected);
        }
    }
}

#[test]
fn a_path_is_echoed() {
    assert_eq!(spike_echo(r"::{GUID}\x".to_string()), r"::{GUID}\x");
}

#[test]
fn a_display_name_or_its_failure_is_reported() {
    assert_eq!(read_display_name(Ok("PC".to_string())), "PC");
    assert_eq!(read_display_name(Err("0x80004005".to_string())), "ERR(0x80004005)");
}

#[test]
fn a_record_tells_of_the_item_and_its_folder() {
    let parent = ParentProbe::Found("folder".to_string(), false);
    let record = format_display_names("item", "ERR(x)", true, parent);
    assert_eq!(
        record,
        "parsing=item\nfilesys=ERR(x)\nparse=true\nparentparsing=folder\nparentparse=false"
    );
    assert_eq!(record.lines().count(), 5);
}

#[test]
fn a_record_without_a_folder_says_so() {
    assert_eq!(
        format_display_names("i", "f", false, ParentProbe::Missing),
        "parsing=i\nfilesys=f\nparse=false\nparentparsing=ERR\nparentparse=ERR"
    );
}

#[test]
fn every_outcome_has_its_line() {
    assert_eq!(spike_pick(PickOutcome::NoThread), vec!["spawn=ERR"]);
    assert_eq!(spike_pick(PickOutcome::NotCreated("a".to_string())), vec!["create=a"]);
    assert_eq!(spike_pick(PickOutcome::NotShown("b".to_string())), vec!["show=b"]);
    assert_eq!(spike_pick(PickOutcome::NoResult("c".to_string())), vec!["getresult=c"]);
    assert_eq!(spike_pick(PickOutcome::Picked("d".to_string())), vec!["d"]);
}
