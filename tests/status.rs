use unit_status::fetch::{
    collate, start_lookups, Action, CallError, Event, FetchError, Stage, UnitLookup,
};
use unit_status::json::{decimal_text, json_report, push_json_string};
use unit_status::printer::{
    print, table_row, table_rows, Highlight, OutputType, PrintConfig, Report,
};
use unit_status::results::{str_lt, ResultSet};
use unit_status::unit::{
    fix_unit_name, is_valid_unit_name, str_ends_with, str_equal, time_since_transition,
    transition_stamp, ActiveState, TimestampKind, UnitInfo, UnitState,
};

fn info(state: ActiveState, sub: &str, secs: u64) -> UnitInfo {
    UnitInfo {
        state: UnitState { state, sub_state: sub.to_string() },
        time_since_state_change: secs,
    }
}

/// Drives a lookup through a run in which every call succeeds.
fn run_lookup(raw: &str, now: u64, state: &str, sub: &str, stamp: u64) -> UnitLookup {
    let mut l = UnitLookup::new(raw.to_string(), now);
    assert_eq!(l.action(), Action::ResolveUnit);
    assert_eq!(l.step(Event::Resolved), Action::BindUnit);
    assert_eq!(l.step(Event::Bound), Action::ReadActiveState);
    let a = l.step(Event::Text(state.to_string()));
    if a == Action::ReadSubState {
        let a = l.step(Event::Text(sub.to_string()));
        assert!(matches!(a, Action::ReadStamp(_)));
        assert_eq!(l.step(Event::Stamp(stamp)), Action::Finish);
    }
    l
}

#[test]
fn normalize_appends_service() {
    assert_eq!(fix_unit_name("nginx".to_string()), "nginx.service");
    assert_eq!(fix_unit_name("foo".to_string()), "foo.service");
    assert_eq!(fix_unit_name("".to_string()), ".service");
    assert_eq!(fix_unit_name("service".to_string()), "service.service");
    assert_eq!(fix_unit_name("a.services".to_string()), "a.services.service");
}

#[test]
fn normalize_keeps_recognized_suffixes() {
    for name in [
        "nginx.service", "dbus.socket", "sda.device", "home.mount", "proc.automount",
        "file.swap", "multi-user.target", "cups.path", "fstrim.timer", "user.slice",
        "session-1.scope",
    ] {
        assert!(is_valid_unit_name(name));
        assert_eq!(fix_unit_name(name.to_string()), name);
    }
    assert!(!is_valid_unit_name("nginx"));
    assert!(!is_valid_unit_name("timer"));
}

#[test]
fn char_helpers() {
    assert!(str_ends_with("abc.timer", ".timer"));
    assert!(!str_ends_with("timer", ".timer"));
    assert!(str_equal("abc", "abc"));
    assert!(!str_equal("abc", "abd"));
    assert!(str_lt("a.service", "b.service"));
    assert!(str_lt("ab", "abc"));
    assert!(!str_lt("abc", "abc"));
    assert!(!str_lt("b", "a"));
}

#[test]
fn active_state_names_round_trip() {
    for st in [
        ActiveState::Active, ActiveState::Activating, ActiveState::Deactivating,
        ActiveState::Failed, ActiveState::Inactive, ActiveState::Reloading,
    ] {
        assert_eq!(ActiveState::try_from(st.name()), Ok(st));
    }
    assert_eq!(ActiveState::try_from("reloading"), Ok(ActiveState::Reloading));
    let e = ActiveState::try_from("maintenance").unwrap_err();
    assert_eq!(e.text, "maintenance");
    assert!(ActiveState::try_from("Active").is_err());
    assert!(ActiveState::try_from("").is_err());
}

#[test]
fn stamp_table() {
    assert_eq!(transition_stamp(ActiveState::Active), TimestampKind::ActiveEnter);
    assert_eq!(transition_stamp(ActiveState::Activating), TimestampKind::InactiveExit);
    assert_eq!(transition_stamp(ActiveState::Deactivating), TimestampKind::ActiveExit);
    assert_eq!(transition_stamp(ActiveState::Failed), TimestampKind::InactiveEnter);
    assert_eq!(transition_stamp(ActiveState::Inactive), TimestampKind::InactiveEnter);
    assert_eq!(transition_stamp(ActiveState::Reloading), TimestampKind::ActiveEnter);
}

#[test]
fn lookup_reads_the_stamp_of_each_state() {
    let cases = [
        ("active", TimestampKind::ActiveEnter),
        ("activating", TimestampKind::InactiveExit),
        ("deactivating", TimestampKind::ActiveExit),
        ("failed", TimestampKind::InactiveEnter),
        ("inactive", TimestampKind::InactiveEnter),
        ("reloading", TimestampKind::ActiveEnter),
    ];
    for (state, kind) in cases {
        let mut l = UnitLookup::new("x".to_string(), 0);
        l.step(Event::Resolved);
        l.step(Event::Bound);
        l.step(Event::Text(state.to_string()));
        assert_eq!(l.step(Event::Text("sub".to_string())), Action::ReadStamp(kind));
    }
}

#[test]
fn elapsed_one_second() {
    assert_eq!(time_since_transition(1_000_000_000, 999_000_000), 1);
    let l = run_lookup("nginx", 1_000_000_000, "active", "running", 999_000_000);
    let (unit, out) = l.into_outcome();
    assert_eq!(unit, "nginx.service");
    assert_eq!(out, Some(Ok(info(ActiveState::Active, "running", 1))));
}

#[test]
fn elapsed_truncates_and_clamps() {
    assert_eq!(time_since_transition(1_999_999, 0), 1);
    assert_eq!(time_since_transition(5_000_000, 5_000_000), 0);
    assert_eq!(time_since_transition(5, 6_000_000), 0);
    assert_eq!(time_since_transition(u64::MAX, 0), u64::MAX / 1_000_000);
}

#[test]
fn status_text() {
    let s = UnitState { state: ActiveState::Failed, sub_state: "failed".to_string() };
    assert_eq!(s.to_string(), "failed (failed)");
    let s = UnitState { state: ActiveState::Active, sub_state: "running".to_string() };
    assert_eq!(s.to_string(), "active (running)");
}

#[test]
fn unknown_unit_fails_with_not_found() {
    let mut lookups = start_lookups(vec!["doesnotexist".to_string()], 10);
    let mut l = lookups.remove(0);
    assert_eq!(l.unit, "doesnotexist.service");
    assert_eq!(l.step(Event::Failed(CallError::NotFound)), Action::Abort);
    assert_eq!(l.stage, Stage::Failed(FetchError::NotFound));
    let (unit, out) = l.into_outcome();
    let r = collate(vec![(unit, out.unwrap())]);
    assert_eq!(r.unwrap_err(), ("doesnotexist.service".to_string(), FetchError::NotFound));
}

#[test]
fn transport_failure_fails_the_run() {
    let mut l = UnitLookup::new("a".to_string(), 0);
    l.step(Event::Resolved);
    assert_eq!(l.step(Event::Failed(CallError::Transport)), Action::Abort);
    // a finished lookup ignores later events
    assert_eq!(l.step(Event::Bound), Action::Abort);
    let ok = run_lookup("b", 10_000_000, "active", "running", 0);
    let outs = vec![ok.into_outcome(), l.into_outcome()];
    let outs = outs.into_iter().map(|(u, o)| (u, o.unwrap())).collect();
    assert_eq!(collate(outs).unwrap_err(), ("a.service".to_string(), FetchError::Transport));
}

#[test]
fn unrecognized_state_is_fatal() {
    let mut l = UnitLookup::new("odd".to_string(), 0);
    l.step(Event::Resolved);
    l.step(Event::Bound);
    assert_eq!(l.step(Event::Text("maintenance".to_string())), Action::Abort);
    assert_eq!(
        l.stage,
        Stage::Failed(FetchError::UnrecognizedState("maintenance".to_string()))
    );
    let good = run_lookup("good", 0, "inactive", "dead", 0);
    let outs = vec![
        (good.unit.clone(), Ok(info(ActiveState::Inactive, "dead", 0))),
        ("odd.service".to_string(), Err(FetchError::UnrecognizedState("maintenance".to_string()))),
    ];
    assert_eq!(
        collate(outs).unwrap_err(),
        ("odd.service".to_string(), FetchError::UnrecognizedState("maintenance".to_string()))
    );
}

#[test]
fn first_error_wins() {
    let outs = vec![
        ("a.service".to_string(), Ok(info(ActiveState::Active, "running", 1))),
        ("b.service".to_string(), Err(FetchError::Transport)),
        ("c.service".to_string(), Err(FetchError::NotFound)),
    ];
    assert_eq!(collate(outs).unwrap_err(), ("b.service".to_string(), FetchError::Transport));
}

#[test]
fn events_out_of_turn_are_ignored() {
    let mut l = UnitLookup::new("a".to_string(), 0);
    assert_eq!(l.step(Event::Bound), Action::ResolveUnit);
    assert_eq!(l.step(Event::Stamp(3)), Action::ResolveUnit);
    assert_eq!(l.step(Event::Text("active".to_string())), Action::ResolveUnit);
    assert_eq!(l.stage, Stage::Resolving);
}

#[test]
fn duplicate_identifiers_give_one_entry() {
    let a = run_lookup("foo", 3_000_000, "active", "running", 1_000_000);
    let b = run_lookup("foo.service", 3_000_000, "failed", "failed", 0);
    let outs = vec![a.into_outcome(), b.into_outcome()];
    let outs = outs.into_iter().map(|(u, o)| (u, o.unwrap())).collect();
    let set = collate(outs).unwrap();
    assert_eq!(set.len(), 1);
    assert_eq!(set.entry(0).0, "foo.service");
    assert_eq!(set.entry(0).1, info(ActiveState::Failed, "failed", 3));
}

#[test]
fn result_set_orders_by_name() {
    let mut set = ResultSet::new();
    set.insert("zeta.service".to_string(), info(ActiveState::Active, "running", 1));
    set.insert("alpha.service".to_string(), info(ActiveState::Failed, "failed", 2));
    set.insert("mid.socket".to_string(), info(ActiveState::Inactive, "dead", 3));
    set.insert("alpha.service".to_string(), info(ActiveState::Active, "running", 4));
    assert_eq!(set.len(), 3);
    assert_eq!(set.entry(0).0, "alpha.service");
    assert_eq!(set.entry(0).1.time_since_state_change, 4);
    assert_eq!(set.entry(1).0, "mid.socket");
    assert_eq!(set.entry(2).0, "zeta.service");
}

#[test]
fn table_sorted_whatever_the_completion_order() {
    let outs1 = vec![
        ("b.service".to_string(), Ok(info(ActiveState::Failed, "failed", 0))),
        ("a.service".to_string(), Ok(info(ActiveState::Active, "running", 3661))),
        ("c.service".to_string(), Ok(info(ActiveState::Activating, "start", 1))),
    ];
    let outs2 = vec![
        ("c.service".to_string(), Ok(info(ActiveState::Activating, "start", 1))),
        ("a.service".to_string(), Ok(info(ActiveState::Active, "running", 3661))),
        ("b.service".to_string(), Ok(info(ActiveState::Failed, "failed", 0))),
    ];
    let s1 = collate(outs1).unwrap();
    let s2 = collate(outs2).unwrap();
    let r1 = table_rows(&s1);
    let r2 = table_rows(&s2);
    assert_eq!(r1, r2);
    assert_eq!(r1, table_rows(&s1));
    let units: Vec<&str> = r1.iter().map(|r| r.unit.as_str()).collect();
    assert_eq!(units, vec!["a.service", "b.service", "c.service"]);
    assert_eq!(r1[0].status, "active (running)");
    assert_eq!(r1[0].elapsed, "1h 1m 1s");
    assert_eq!(r1[0].highlight, Highlight::Success);
    assert_eq!(r1[1].elapsed, "0s");
    assert_eq!(r1[1].highlight, Highlight::Error);
    assert_eq!(r1[2].elapsed, "1s");
    assert_eq!(r1[2].highlight, Highlight::Plain);
}

#[test]
fn row_from_given_elapsed_text() {
    let row = table_row(
        &"x.service".to_string(),
        &info(ActiveState::Reloading, "reload", 5),
        "five".to_string(),
    );
    assert_eq!(row.unit, "x.service");
    assert_eq!(row.status, "reloading (reload)");
    assert_eq!(row.elapsed, "five");
    assert_eq!(row.highlight, Highlight::Plain);
}

#[test]
fn humantime_text_of_long_spans() {
    let mut set = ResultSet::new();
    set.insert("d.service".to_string(), info(ActiveState::Active, "running", 86_400 + 120));
    assert_eq!(table_rows(&set)[0].elapsed, "1day 2m");
}

#[test]
fn decimal_numbers() {
    assert_eq!(decimal_text(0), "0");
    assert_eq!(decimal_text(7), "7");
    assert_eq!(decimal_text(10), "10");
    assert_eq!(decimal_text(1234567890), "1234567890");
    assert_eq!(decimal_text(u64::MAX), "18446744073709551615");
}

#[test]
fn json_string_escapes() {
    assert_eq!(push_json_string("x".to_string(), "a\"b\\c"), "x\"a\\\"b\\\\c\"");
    assert_eq!(push_json_string(String::new(), "tab\there\n"), "\"tab\\u0009here\\u000a\"");
    assert_eq!(push_json_string(String::new(), "héllo"), "\"héllo\"");
    assert_eq!(push_json_string(String::new(), ""), "\"\"");
}

#[test]
fn json_report_records() {
    let mut set = ResultSet::new();
    assert_eq!(json_report(&set), "[]");
    set.insert("b.service".to_string(), info(ActiveState::Failed, "failed", 0));
    set.insert("a.service".to_string(), info(ActiveState::Active, "running", 12));
    assert_eq!(
        json_report(&set),
        "[{\"unit\":\"a.service\",\"state\":\"active\",\"sub_state\":\"running\",\"elapsed_seconds\":12},\
         {\"unit\":\"b.service\",\"state\":\"failed\",\"sub_state\":\"failed\",\"elapsed_seconds\":0}]"
    );
}

#[test]
fn format_selection() {
    let mut set = ResultSet::new();
    set.insert("a.service".to_string(), info(ActiveState::Active, "running", 1));
    let auto = PrintConfig { force_color: false, output_type: None };
    assert!(matches!(print(&set, auto, true), Report::Table(_)));
    assert!(matches!(print(&set, auto, false), Report::Json(_)));
    let table = PrintConfig { force_color: true, output_type: Some(OutputType::Table) };
    assert!(matches!(print(&set, table, false), Report::Table(_)));
    let json = PrintConfig { force_color: false, output_type: Some(OutputType::Json) };
    match print(&set, json, true) {
        Report::Json(text) => assert_eq!(text, json_report(&set)),
        Report::Table(_) => panic!("expected JSON"),
    }
    assert_eq!(print(&set, auto, true), print(&set, auto, true));
}

#[test]
fn json_parses_back_to_the_same_records() {
    let mut set = ResultSet::new();
    set.insert("b.service".to_string(), info(ActiveState::Failed, "fa\"il\\ed", 0));
    set.insert("a.service".to_string(), info(ActiveState::Active, "run\nning\u{1}", 12));
    set.insert("c.timer".to_string(), info(ActiveState::Reloading, "ünï", u64::MAX));
    let text = json_report(&set);
    let parsed: serde_json::Value = serde_json::from_str(&text).unwrap();
    let items = parsed.as_array().unwrap();
    assert_eq!(items.len(), set.len());
    for (i, item) in items.iter().enumerate() {
        let (unit, info) = set.entry(i);
        assert_eq!(item["unit"].as_str().unwrap(), unit);
        assert_eq!(item["state"].as_str().unwrap(), info.state.state.name());
        assert_eq!(item["sub_state"].as_str().unwrap(), info.state.sub_state);
        assert_eq!(item["elapsed_seconds"].as_u64().unwrap(), info.time_since_state_change);
    }
}
