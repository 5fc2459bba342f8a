use hku_moodle_helper::ics::{
    ics_prop, kind_from_ical_text, parse_ics, unescape_ics, unfold_ics, FALLBACK_URL,
};
use hku_moodle_helper::time::{civil_from_days, ics_datetime_to_iso, unix_to_iso8601};
use hku_moodle_helper::todo::TodoKind;

#[test]
fn unfold_joins_continuation_lines() {
    assert_eq!(unfold_ics("SUMMARY:Partial\r\n  Report\r\nUID:1\r\n"), "SUMMARY:Partial Report\nUID:1");
    assert_eq!(unfold_ics("A\n\tB\nC"), "AB\nC");
    assert_eq!(unfold_ics(""), "");
    assert_eq!(unfold_ics(" lead\nX"), "lead\nX");
    assert_eq!(unfold_ics("A\r"), "A\r");
}

#[test]
fn ics_prop_matches_name_ignoring_case_and_params() {
    let block = "\nsummary;LANGUAGE=en: Essay \r\nDTEND;VALUE=DATE:20261014\nSUMMARY:second";
    assert_eq!(ics_prop(block, "SUMMARY").as_deref(), Some("Essay"));
    assert_eq!(ics_prop(block, "dtend").as_deref(), Some("20261014"));
    assert_eq!(ics_prop(block, "UID"), None);
    assert_eq!(ics_prop("URL:https://x.y/z", "URL").as_deref(), Some("https://x.y/z"));
    assert_eq!(ics_prop("NOCOLON", "NOCOLON"), None);
}

#[test]
fn unescape_undoes_ics_escapes_in_order() {
    assert_eq!(unescape_ics("a\\, b\\; c\\nd"), "a, b; c\nd");
    assert_eq!(unescape_ics("back\\\\slash"), "back\\slash");
    // `\n` is replaced before `\\`, so `\\n` becomes a backslash and a newline.
    assert_eq!(unescape_ics("\\\\n"), "\\\n");
    assert_eq!(unescape_ics("plain"), "plain");
}

#[test]
fn kind_from_ical_text_checks_keywords_in_order() {
    assert_eq!(kind_from_ical_text("Turnitin Quiz", ""), TodoKind::Turnitin);
    assert_eq!(kind_from_ical_text("Midterm EXAM", ""), TodoKind::Assessment);
    assert_eq!(kind_from_ical_text("Course", "enrolment opens"), TodoKind::Registration);
    assert_eq!(kind_from_ical_text("Report is due", ""), TodoKind::Assignment);
    assert_eq!(kind_from_ical_text("Lecture", "room 3"), TodoKind::Other);
    // The summary and the description are joined by a space.
    assert_eq!(kind_from_ical_text("du", "e"), TodoKind::Other);
    assert_eq!(kind_from_ical_text("qu", "iz"), TodoKind::Other);
}

#[test]
fn ics_datetime_formats() {
    assert_eq!(ics_datetime_to_iso("20261014T155900Z").as_deref(), Some("2026-10-14T15:59:00Z"));
    assert_eq!(ics_datetime_to_iso("20261014").as_deref(), Some("2026-10-14T00:00:00Z"));
    assert_eq!(ics_datetime_to_iso("2026-10-14T15:59:00Z").as_deref(), Some("2026-10-14T15:59:00Z"));
    assert_eq!(ics_datetime_to_iso("2026101"), None);
    assert_eq!(ics_datetime_to_iso(""), None);
    // Any eight letters or digits are read as a date.
    assert_eq!(ics_datetime_to_iso("tomorrow").as_deref(), Some("tomo-rr-owT00:00:00Z"));
    assert_eq!(ics_datetime_to_iso("20261014T1559").as_deref(), Some("2026-10-14T00:00:00Z"));
}

#[test]
fn unix_time_edge_cases() {
    assert_eq!(unix_to_iso8601(0), "1970-01-01T00:00:00Z");
    assert_eq!(unix_to_iso8601(-1), "1970-01-01T00:00:00Z");
    assert_eq!(unix_to_iso8601(86_399), "1970-01-01T23:59:59Z");
    assert_eq!(unix_to_iso8601(1_709_164_800), "2024-02-29T00:00:00Z");
    assert_eq!(unix_to_iso8601(951_868_800), "2000-03-01T00:00:00Z");
    assert_eq!(unix_to_iso8601(253_402_300_799), "9999-12-31T23:59:59Z");
    assert_eq!(unix_to_iso8601(i64::MAX), "219250468-12-04T15:30:07Z");
}

#[test]
fn civil_from_days_known_dates() {
    assert_eq!(civil_from_days(0), (1970, 1, 1));
    assert_eq!(civil_from_days(-1), (1969, 12, 31));
    assert_eq!(civil_from_days(-719_468), (0, 3, 1));
    assert_eq!(civil_from_days(20_740), (2026, 10, 14));
    assert_eq!(civil_from_days(11_016), (2000, 2, 29));
}

#[test]
fn parse_ics_skips_incomplete_events_and_keeps_order() {
    let ics = "BEGIN:VCALENDAR\n\
BEGIN:VEVENT\nUID:1@moodle.hku.hk\nSUMMARY:First quiz\nDTSTART:20261001\nEND:VEVENT\n\
BEGIN:VEVENT\nUID:2@moodle.hku.hk\nDTEND:20261002T010203Z\nEND:VEVENT\n\
BEGIN:VEVENT\nUID:3@moodle.hku.hk\nSUMMARY:No date\nEND:VEVENT\n\
BEGIN:VEVENT\nUID:plain\nSUMMARY:Essay\\, draft\nDTEND:soon\nCATEGORIES:\nDESCRIPTION:submission box\nEND:VEVENT\n\
BEGIN:VEVENT\nUID:@odd\nSUMMARY:Enrol\nDTEND:20261003T000000Z\nCATEGORIES:A\\,B\nEND:VEVENT\n\
END:VCALENDAR\n";
    let items = parse_ics(ics);
    assert_eq!(items.len(), 3);
    assert_eq!(items[0].id, "1");
    assert_eq!(items[0].title, "First quiz");
    assert_eq!(items[0].deadline, "2026-10-01T00:00:00Z");
    assert_eq!(items[0].kind, TodoKind::Assessment);
    assert_eq!(items[0].course, None);
    assert_eq!(items[1].id, "plain");
    assert_eq!(items[1].title, "Essay, draft");
    assert_eq!(items[1].deadline, "soon");
    assert_eq!(items[1].kind, TodoKind::Assignment);
    assert_eq!(items[1].course, None);
    assert_eq!(items[2].id, "@odd");
    assert_eq!(items[2].course.as_deref(), Some("A,B"));
    assert_eq!(items[2].kind, TodoKind::Registration);
    for item in &items {
        assert_eq!(item.url, FALLBACK_URL);
    }
}

#[test]
fn parse_ics_without_events_is_empty() {
    assert!(parse_ics("").is_empty());
    assert!(parse_ics("BEGIN:VCALENDAR\nEND:VCALENDAR\n").is_empty());
}

#[test]
fn parse_ics_reads_folded_and_unterminated_events() {
    let ics = "BEGIN:VEVENT\r\nSUMMARY:Long\r\n  title\r\nDTEND:20261014T155900Z\r\nUID:77@moodle.hku.hk";
    let items = parse_ics(ics);
    assert_eq!(items.len(), 1);
    assert_eq!(items[0].title, "Long title");
    assert_eq!(items[0].id, "77");
}

#[test]
fn ics_and_ajax_deadlines_agree() {
    for (secs, basic) in [
        (1_791_993_540i64, "20261014T155900Z"),
        (0, "19700101T000000Z"),
        (1_709_164_800, "20240229T000000Z"),
        (253_402_300_799, "99991231T235959Z"),
    ] {
        assert_eq!(ics_datetime_to_iso(basic), Some(unix_to_iso8601(secs)));
    }
}

#[test]
fn ics_uid_lines_up_with_ajax_id() {
    let items = parse_ics("BEGIN:VEVENT\nUID:10749654@moodle.hku.hk\nSUMMARY:S\nDTEND:20261014\nEND:VEVENT");
    assert_eq!(items[0].id, 10749654i64.to_string());
}

#[test]
fn ics_prop_trims_unicode_whitespace() {
    assert_eq!(ics_prop("SUMMARY:\u{3000}Quiz 2\u{85} \t", "summary").as_deref(), Some("Quiz 2"));
    assert_eq!(ics_prop("SUMMARY:   ", "SUMMARY").as_deref(), Some(""));
    assert_eq!(ics_prop("X:1\nSUMMARY;A=b;C=d:v:w", "SUMMARY").as_deref(), Some("v:w"));
}

#[test]
fn parse_ics_reads_url_property() {
    let ics = "BEGIN:VEVENT\nUID:3@moodle.hku.hk\nSUMMARY:Essay\nDTEND:20261014T155900Z\nURL:https://moodle.hku.hk/mod/assign/view.php?id=9\nEND:VEVENT\n\
BEGIN:VEVENT\nUID:4@moodle.hku.hk\nSUMMARY:Other\nDTEND:20261014\nURL: \nEND:VEVENT\n";
    let items = parse_ics(ics);
    assert_eq!(items.len(), 2);
    assert_eq!(items[0].url, "https://moodle.hku.hk/mod/assign/view.php?id=9");
    assert_eq!(items[1].url, FALLBACK_URL);
}

#[test]
fn rfc3339_result_reads_back_as_itself() {
    for raw in ["20261014T155900Z", "20261014", "2026-10-14T15:59:00Z", "tomorrow"] {
        let s = ics_datetime_to_iso(raw).unwrap();
        assert_eq!(ics_datetime_to_iso(&s).as_deref(), Some(s.as_str()));
    }
    let t = unix_to_iso8601(1_791_993_540);
    assert_eq!(ics_datetime_to_iso(&t), Some(t.clone()));
}

#[test]
fn timestamps_sort_like_instants() {
    let instants = [0i64, 59, 60, 3_599, 3_600, 86_399, 86_400, 951_868_800, 1_709_164_800, 1_791_993_540, 253_402_300_799];
    for w in instants.windows(2) {
        assert!(unix_to_iso8601(w[0]) < unix_to_iso8601(w[1]));
    }
}

#[test]
fn ical_kind_ignores_order_and_case() {
    let pairs = [("Quiz", "due friday"), ("Lecture", "TURNITIN upload"), ("enrol", ""), ("a", "b")];
    for (s, d) in pairs {
        assert_eq!(kind_from_ical_text(s, d), kind_from_ical_text(d, s));
        assert_eq!(kind_from_ical_text(s, d), kind_from_ical_text(&s.to_ascii_uppercase(), &d.to_ascii_lowercase()));
    }
}
