use pty_core::proctable::{
    has_exited, parse_proc_stat, process, table_from_shape, Answer, LiveIdentity, ProcTable, Row,
    StatRead, Unknown,
};

const ME: i32 = 4711;

fn own_line() -> String {
    format!("{ME} 1 {ME} S 100 0.5 Wed Sep  3 11:00:00 2026\n")
}

#[test]
fn a_listing_without_our_own_pid_is_unreadable_not_empty() {
    let t = ProcTable::from_ps_listing("4242 1 4242 S 100 0.0 Wed Sep  3 11:00:00 2026\n", ME);
    assert!(!t.is_readable(), "a listing that omits the reader is truncated");
    assert!(
        t.is_running(4242).is_unknown(),
        "and it must not answer questions about the row it does contain"
    );
}

#[test]
fn an_empty_listing_is_unreadable_not_empty() {
    assert!(!ProcTable::from_ps_listing("", ME).is_readable());
    assert!(!ProcTable::from_ps_listing("   \n\n", ME).is_readable());
}

#[test]
fn a_listing_that_contains_us_is_readable() {
    let t = ProcTable::from_ps_listing(&own_line(), ME);
    assert!(t.is_readable());
    assert_eq!(t.is_running(ME), Answer::Known(true));
    assert_eq!(t.resources(ME), Answer::Known((100, "0.5".to_string())));
    assert_eq!(
        t.identity(ME),
        Answer::Known(LiveIdentity::new("darwin:Wed Sep  3 11:00:00 2026"))
    );
}

#[test]
fn absent_and_unknown_are_different_answers() {
    let readable = ProcTable::from_ps_listing(&own_line(), ME);
    let unreadable = ProcTable::unreadable();

    assert_eq!(readable.is_running(999_999), Answer::NotPresent);
    assert!(readable.is_running(999_999).is_definitely_absent());

    assert_eq!(
        unreadable.is_running(999_999),
        Answer::Unknown(Unknown::TableUnreadable)
    );
    assert!(
        !unreadable.is_running(999_999).is_definitely_absent(),
        "an unreadable table never proves a process is gone"
    );
}

#[test]
fn an_empty_column_is_not_an_absent_process() {
    let listing = format!("{ME} 1 {ME} S\n");
    let t = ProcTable::from_ps_listing(&listing, ME);
    assert!(t.is_readable());
    assert_eq!(t.resources(ME), Answer::Unknown(Unknown::FieldEmpty));
    assert_eq!(t.identity(ME), Answer::Unknown(Unknown::FieldEmpty));
    assert!(!t.resources(ME).is_definitely_absent());
}

#[test]
fn treating_silence_as_death_has_to_be_asked_for_by_name() {
    let t = ProcTable::unreadable();
    assert!(t.is_running(1).is_unknown());
    assert!(t.is_running(1).or_absent_when_unknown().is_definitely_absent());
}

#[test]
fn a_listing_that_stops_before_our_own_row_is_unreadable() {
    let t = ProcTable::from_ps_listing("1 0 1 S 100 0.0 Wed Sep  3 11:00:00 2026\n", ME);
    assert!(!t.is_readable());
    assert!(t.rows().is_empty());
}

#[test]
fn a_zombie_row_is_present_but_not_running() {
    let listing = format!("{}4242 {ME} 4242 Z+ 0 0.0 Wed Sep  3 11:00:00 2026\n", own_line());
    let t = ProcTable::from_ps_listing(&listing, ME);
    assert_eq!(t.is_running(4242), Answer::Known(false));
    assert!(!t.is_running(4242).is_definitely_absent());
    assert_eq!(t.rows().len(), 2);
    let row = t.row(4242).known().unwrap();
    assert!(row.is_zombie());
    assert_eq!(row.ppid, ME);
    assert_eq!(row.state, "Z+");
}

#[test]
fn lines_that_are_no_rows_are_passed_over() {
    let listing = format!("PID PPID\n{}garbage\n7 x 7 S\n", own_line());
    let t = ProcTable::from_ps_listing(&listing, ME);
    assert!(t.is_readable());
    assert_eq!(t.rows().len(), 1);
    assert_eq!(t.is_running(7), Answer::NotPresent);
}

#[test]
fn answers_map_and_give_up_their_values() {
    assert_eq!(Answer::Known(2).map(|n: i32| n + 1), Answer::Known(3));
    assert_eq!(Answer::<i32>::NotPresent.map(|n: i32| n + 1), Answer::NotPresent);
    assert_eq!(
        Answer::<i32>::Unknown(Unknown::FieldUnparsable).map(|n: i32| n + 1),
        Answer::Unknown(Unknown::FieldUnparsable)
    );
    assert_eq!(Answer::Known(5).known(), Some(5));
    assert_eq!(Answer::<i32>::NotPresent.known(), None);
    assert_eq!(Answer::Known(5).or_absent_when_unknown(), Answer::Known(5));
}

const STAT: &str = "4242 (a ) b) S 17 4242 9 0 -1 4194304 1 2 3 4 5 6 7 8 20 0 1 0 123456 9999 250 rest";

#[test]
fn a_stat_line_with_a_bracket_in_the_command_is_read() {
    let row: Row = parse_proc_stat(4242, STAT, 4).unwrap();
    assert_eq!(row.pid, 4242);
    assert_eq!(row.ppid, 17);
    assert_eq!(row.pgid, 4242);
    assert_eq!(row.state, "S");
    assert_eq!(row.rss_kb, Some(1000));
    assert_eq!(row.identity, Some(LiveIdentity::new("linux:123456")));
    assert!(parse_proc_stat(4242, "no brackets here", 4).is_none());
}

#[test]
fn a_missing_stat_file_is_a_dead_process_and_an_unreadable_one_is_not() {
    assert_eq!(process(4242, &StatRead::NotFound, 4), Answer::NotPresent);
    assert!(process(4242, &StatRead::Unreadable, 4).is_unknown());
    assert_eq!(has_exited(4242, &StatRead::NotFound, 4), Answer::NotPresent);
    assert_eq!(process(0, &StatRead::Text(STAT.to_string()), 4), Answer::NotPresent);
    assert_eq!(
        process(4242, &StatRead::Text("junk".to_string()), 4),
        Answer::Unknown(Unknown::FieldUnparsable)
    );
    assert!(has_exited(4242, &StatRead::Unreadable, 4).is_unknown());
    assert_eq!(
        has_exited(4242, &StatRead::Text(STAT.to_string()), 4),
        Answer::Known(false)
    );
    let zombie = STAT.replace(" S 17", " Z 17");
    assert_eq!(has_exited(4242, &StatRead::Text(zombie), 4), Answer::Known(true));
}

#[test]
fn a_table_from_a_shape() {
    let t = table_from_shape("10 1 10\n11 10 10 Z tok:x\n12 11 10 S -\nnot a row\n");
    assert!(t.is_readable());
    assert_eq!(t.rows().len(), 3);
    assert_eq!(t.is_running(10), Answer::Known(true));
    assert_eq!(t.identity(10), Answer::Known(LiveIdentity::new("tok:10")));
    assert_eq!(t.is_running(11), Answer::Known(false));
    assert_eq!(t.identity(11), Answer::Known(LiveIdentity::new("tok:x")));
    assert_eq!(t.identity(12), Answer::Unknown(Unknown::FieldEmpty));
}

#[test]
fn the_last_row_of_a_process_counts() {
    let t = table_from_shape("10 1 10 S a\n10 2 10 Z b\n");
    assert_eq!(t.row(10).known().unwrap().ppid, 2);
    assert_eq!(t.is_running(10), Answer::Known(false));
}
