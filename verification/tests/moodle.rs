use hku_moodle_helper::ajax::kind_from_modulename;
use hku_moodle_helper::ics::{parse_ics, FALLBACK_URL};
use hku_moodle_helper::time::unix_to_iso8601;
use hku_moodle_helper::todo::TodoKind;

#[test]
fn maps_known_modules() {
    assert_eq!(kind_from_modulename("assign"), TodoKind::Assignment);
    assert_eq!(kind_from_modulename("turnitintooltwo"), TodoKind::Turnitin);
    assert_eq!(kind_from_modulename("quiz"), TodoKind::Assessment);
    assert_eq!(kind_from_modulename("questionnaire"), TodoKind::Other);
}

#[test]
fn unix_formats_known_instant() {
    // 2026-10-14T15:59:00Z == 1791993540, from the spike sample.
    assert_eq!(unix_to_iso8601(1_791_993_540), "2026-10-14T15:59:00Z");
}

#[test]
fn parses_hk_ics_event() {
    let ics = "BEGIN:VCALENDAR\r\nBEGIN:VEVENT\r\nUID:10749654@moodle.hku.hk\r\nSUMMARY:Partial Report\r\nDTSTART:20261014T155900Z\r\nDTEND:20261014T155900Z\r\nCATEGORIES:_CAES9542_2026\r\nEND:VEVENT\r\nEND:VCALENDAR\r\n";
    let items = parse_ics(ics);
    assert_eq!(items.len(), 1);
    assert_eq!(items[0].id, "10749654");
    assert_eq!(items[0].title, "Partial Report");
    assert_eq!(items[0].course.as_deref(), Some("_CAES9542_2026"));
    assert_eq!(items[0].deadline, "2026-10-14T15:59:00Z");
    assert_eq!(items[0].url, FALLBACK_URL);
}
