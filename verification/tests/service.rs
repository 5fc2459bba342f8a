use hku_moodle_helper::ajax::{
    ajax_event_id, ajax_request_args, events_from_envelopes, todo_from_ajax, AjaxAction, AjaxCourse,
    AjaxData, AjaxEnvelope, AjaxEvent, AjaxException, AjaxPager, MAX_PAGES, PAGE_SIZE,
};
use hku_moodle_helper::auth::{
    allow_login_navigation, check_session_alive, check_session_cookies, cookie_header,
    has_moodle_session, is_post_login_moodle, HarvestLatch, session_from_harvest, session_with_sesskey, stored_cookie, LoginUrl, SessionSecrets,
    StoredCookie,
};
use hku_moodle_helper::moodle::{
    after_ajax, after_ical, items_from_export, user_agent, AjaxSession, FetchProgress, Ical,
};
use hku_moodle_helper::shell::{greet, tray_action, TrayAction};
use hku_moodle_helper::todo::{TodoItem, TodoKind, TodoSourceKind};

fn event(id: Option<i64>, name: &str, time: Option<i64>, url: &str) -> AjaxEvent {
    AjaxEvent {
        id,
        name: Some(name.to_string()),
        modulename: Some("assign".to_string()),
        timestart: None,
        timesort: time,
        url: Some(url.to_string()),
        course: None,
        action: None,
    }
}

fn cookie(name: &str, value: &str) -> StoredCookie {
    StoredCookie {
        name: name.to_string(),
        value: value.to_string(),
        domain: None,
        path: None,
        secure: true,
        http_only: true,
    }
}

fn item(id: &str) -> TodoItem {
    TodoItem {
        id: id.to_string(),
        title: "t".to_string(),
        course: None,
        kind: TodoKind::Other,
        deadline: "d".to_string(),
        url: "u".to_string(),
    }
}

#[test]
fn todo_from_ajax_maps_sample_event() {
    let e = AjaxEvent {
        id: Some(10749654),
        name: Some("Partial Report Submission - 20% - Partial Report".to_string()),
        modulename: Some("turnitintooltwo".to_string()),
        timestart: Some(1791993540),
        timesort: Some(1791993540),
        url: Some("https://moodle.hku.hk/mod/turnitintooltwo/view.php?id=4170576".to_string()),
        course: Some(AjaxCourse {
            shortname: Some("_CAES9542_2026".to_string()),
            fullname: Some("CAES9542 Technical English for Computer Science [2026]".to_string()),
        }),
        action: None,
    };
    let t = todo_from_ajax(e).unwrap();
    assert_eq!(t.id, "10749654");
    assert_eq!(t.title, "Partial Report Submission - 20% - Partial Report");
    assert_eq!(t.course.as_deref(), Some("_CAES9542_2026"));
    assert_eq!(t.kind, TodoKind::Turnitin);
    assert_eq!(t.deadline, "2026-10-14T15:59:00Z");
    assert_eq!(t.url, "https://moodle.hku.hk/mod/turnitintooltwo/view.php?id=4170576");
}

#[test]
fn todo_from_ajax_deadline_is_timestart() {
    let mut e = event(Some(1), "X", Some(86_400), "https://x");
    e.timestart = Some(0);
    assert_eq!(todo_from_ajax(e).unwrap().deadline, "1970-01-01T00:00:00Z");
    let only_sort = event(Some(1), "X", Some(86_400), "https://x");
    assert_eq!(todo_from_ajax(only_sort).unwrap().deadline, "1970-01-02T00:00:00Z");
}

#[test]
fn todo_from_ajax_fallbacks_and_rejections() {
    let mut e = event(None, "Quiz 1", None, "");
    e.timestart = Some(0);
    e.modulename = None;
    e.action = Some(AjaxAction { url: Some("https://a/b".to_string()) });
    e.course = Some(AjaxCourse { shortname: Some(String::new()), fullname: Some("Full".to_string()) });
    let t = todo_from_ajax(e.clone()).unwrap();
    assert_eq!(t.id, "0");
    assert_eq!(t.url, "https://a/b");
    assert_eq!(t.course.as_deref(), Some("Full"));
    assert_eq!(t.kind, TodoKind::Other);
    assert_eq!(t.deadline, "1970-01-01T00:00:00Z");

    let mut no_name = e.clone();
    no_name.name = Some(String::new());
    assert!(todo_from_ajax(no_name).is_none());
    let mut no_time = e.clone();
    no_time.timestart = None;
    assert!(todo_from_ajax(no_time).is_none());
    let mut no_url = e.clone();
    no_url.action = Some(AjaxAction { url: Some(String::new()) });
    assert!(todo_from_ajax(no_url).is_none());
    let negative = event(Some(-42), "x", Some(-5), "u");
    let t = todo_from_ajax(negative).unwrap();
    assert_eq!(t.id, "-42");
    assert_eq!(t.kind, TodoKind::Assignment);
    assert_eq!(ajax_event_id(&event(Some(7), "x", None, "u")), Some(7));
}

#[test]
fn envelopes_give_events_or_error() {
    assert_eq!(events_from_envelopes(vec![]).unwrap_err(), "empty AJAX envelope");
    let failed = AjaxEnvelope {
        error: true,
        data: None,
        exception: Some(AjaxException {
            errorcode: Some("invalidsesskey".to_string()),
            message: None,
        }),
    };
    assert_eq!(events_from_envelopes(vec![failed]).unwrap_err(), "invalidsesskey: AJAX error");
    let bare = AjaxEnvelope { error: true, data: None, exception: None };
    assert_eq!(events_from_envelopes(vec![bare]).unwrap_err(), "unknown: AJAX error");
    let empty_ok = AjaxEnvelope { error: false, data: None, exception: None };
    assert!(events_from_envelopes(vec![empty_ok]).unwrap().is_empty());
    let ok = AjaxEnvelope {
        error: false,
        data: Some(AjaxData { events: vec![event(Some(1), "a", Some(0), "u")] }),
        exception: None,
    };
    let other = AjaxEnvelope { error: true, data: None, exception: None };
    let events = events_from_envelopes(vec![ok, other]).unwrap();
    assert_eq!(events.len(), 1);
    assert_eq!(events[0].id, Some(1));
}

#[test]
fn request_args_ask_for_full_pages_from_time_zero() {
    let a = ajax_request_args(Some(9));
    assert_eq!(a.limitnum, 50);
    assert_eq!(a.timesortfrom, 0);
    assert!(a.limittononsuspendedevents);
    assert_eq!(a.aftereventid, Some(9));
    assert_eq!(ajax_request_args(None).aftereventid, None);
}

fn full_page(first_id: i64) -> Vec<AjaxEvent> {
    (0..PAGE_SIZE as i64).map(|k| event(Some(first_id + k), "n", Some(0), "u")).collect()
}

#[test]
fn pager_follows_last_id_until_short_page() {
    let mut p = AjaxPager::new();
    assert_eq!(p.next_request(), Some(None));
    p.accept_page(full_page(1));
    assert_eq!(p.next_request(), Some(Some(50)));
    p.accept_page(vec![event(Some(51), "n", Some(0), "u"), event(None, "", Some(0), "u")]);
    assert_eq!(p.next_request(), None);
    assert_eq!(p.into_items().len(), 51);
}

#[test]
fn pager_stops_on_empty_page_and_repeated_id() {
    let mut p = AjaxPager::new();
    p.accept_page(vec![]);
    assert_eq!(p.next_request(), None);
    assert!(p.into_items().is_empty());

    let mut q = AjaxPager::new();
    q.accept_page(full_page(1));
    q.accept_page(full_page(1));
    assert_eq!(q.next_request(), None);
    assert_eq!(q.into_items().len(), 100);

    let mut r = AjaxPager::new();
    let mut page = full_page(1);
    page[49].id = None;
    r.accept_page(page);
    assert_eq!(r.next_request(), None);
}

#[test]
fn pager_reads_at_most_max_pages() {
    let mut p = AjaxPager::new();
    let mut pages = 0;
    while let Some(after) = p.next_request() {
        let start = after.unwrap_or(0) + 1;
        p.accept_page(full_page(start));
        pages += 1;
    }
    assert_eq!(pages, MAX_PAGES);
    assert_eq!(p.into_items().len(), (MAX_PAGES * PAGE_SIZE) as usize);
}

#[test]
fn cookie_header_joins_pairs() {
    let secrets = SessionSecrets {
        sesskey: "k".to_string(),
        cookies: vec![cookie("MoodleSession", "abc"), cookie("MOODLEID1_", "x=y")],
    };
    assert_eq!(cookie_header(&secrets), "MoodleSession=abc; MOODLEID1_=x=y");
    let none = SessionSecrets { sesskey: "k".to_string(), cookies: vec![] };
    assert_eq!(cookie_header(&none), "");
}

#[test]
fn session_harvest_rules() {
    let cookies = vec![cookie("MOODLEID1_", "1"), cookie("MoodleSession", "s")];
    assert!(has_moodle_session(&cookies));
    assert!(check_session_cookies(&cookies).is_ok());
    let only_id = vec![cookie("MOODLEID1_", "1")];
    assert!(!has_moodle_session(&only_id));
    assert_eq!(check_session_cookies(&only_id).unwrap_err(), "MoodleSession cookie not present yet");

    let s = session_from_harvest(cookies.clone(), "\"Ab3dE\"").unwrap();
    assert_eq!(s.sesskey, "Ab3dE");
    assert_eq!(s.cookies.len(), 2);
    let escaped = session_from_harvest(vec![], "\"a\\\"b\"").unwrap();
    assert_eq!(escaped.sesskey, "a\"b");
    assert_eq!(session_from_harvest(vec![], "\"\"").unwrap_err(), "M.cfg.sesskey was empty");
    assert_eq!(session_from_harvest(vec![], "null").unwrap_err(), "M.cfg.sesskey was empty");
    assert_eq!(session_from_harvest(vec![], "Ab3dE").unwrap_err(), "M.cfg.sesskey was empty");

    let k = session_with_sesskey(vec![cookie("MoodleSession", "s")], Some("key".to_string())).unwrap();
    assert_eq!(k.sesskey, "key");
    assert_eq!(k.cookies[0].name, "MoodleSession");
    assert_eq!(session_with_sesskey(vec![], Some(String::new())).unwrap_err(), "M.cfg.sesskey was empty");
    assert_eq!(session_with_sesskey(vec![], None).unwrap_err(), "M.cfg.sesskey was empty");

    let c = stored_cookie("n".to_string(), "v".to_string(), None, Some("/".to_string()), None, Some(false));
    assert!(c.secure);
    assert!(!c.http_only);
    assert_eq!(c.path.as_deref(), Some("/"));
}

fn url(scheme: &str, host: Option<&str>, path: &str) -> LoginUrl {
    LoginUrl { scheme: scheme.to_string(), host: host.map(|h| h.to_string()), path: path.to_string() }
}

#[test]
fn login_navigation_rules() {
    assert!(allow_login_navigation(&url("https", Some("login.microsoftonline.com"), "/")));
    assert!(allow_login_navigation(&url("http", Some("hku.hk"), "/cas")));
    assert!(allow_login_navigation(&url("about", None, "blank")));
    assert!(!allow_login_navigation(&url("file", None, "/etc/passwd")));
    assert!(!allow_login_navigation(&url("javascript", None, "alert(1)")));
    assert!(is_post_login_moodle(&url("https", Some("moodle.hku.hk"), "/my/")));
    assert!(is_post_login_moodle(&url("https", Some("moodle.hku.hk"), "/")));
    assert!(!is_post_login_moodle(&url("https", Some("moodle.hku.hk"), "/login/index.php")));
    assert!(!is_post_login_moodle(&url("https", Some("hku.hk"), "/my/")));
    assert!(!is_post_login_moodle(&url("https", None, "/my/")));
}

#[test]
fn requests_of_a_session() {
    let secrets = SessionSecrets { sesskey: "a b&c".to_string(), cookies: vec![cookie("MoodleSession", "s")] };
    let ajax = AjaxSession::new(&secrets);
    assert_eq!(
        ajax.service_url(),
        "https://moodle.hku.hk/lib/ajax/service.php?sesskey=a b&c&info=core_calendar_get_action_events_by_timesort"
    );
    assert_eq!(ajax.cookie(), "MoodleSession=s");
    let ical = Ical::new(&secrets);
    assert_eq!(
        ical.form_body(),
        "sesskey=a+b%26c&_qf__core_calendar_export_form=1&events%5Bexportevents%5D=all&period%5Btimeperiod%5D=custom&export=1"
    );
    assert_eq!(ical.cookie(), "MoodleSession=s");
    assert_eq!(user_agent(), "Mozilla/5.0 (HKU Moodle Helper)");
}

#[test]
fn export_form_encodes_the_sesskey_byte_by_byte() {
    let secrets = SessionSecrets { sesskey: "Az09*-._~/é".to_string(), cookies: vec![] };
    let ical = Ical::new(&secrets);
    assert_eq!(
        ical.form_body(),
        "sesskey=Az09*-._%7E%2F%C3%A9&_qf__core_calendar_export_form=1&events%5Bexportevents%5D=all&period%5Btimeperiod%5D=custom&export=1"
    );
    assert_eq!(ical.cookie(), "");
}

#[test]
fn export_answer_must_be_a_calendar() {
    assert_eq!(
        items_from_export("text/html; charset=utf-8", "<html>login</html>").unwrap_err(),
        "calendar export did not return iCal (content-type text/html; charset=utf-8)"
    );
    let ok = items_from_export("text/calendar", "BEGIN:VCALENDAR\nBEGIN:VEVENT\nSUMMARY:S\nDTEND:20261014\nEND:VEVENT\n").unwrap();
    assert_eq!(ok.len(), 1);
    assert!(items_from_export("", "BEGIN:VCALENDAR").unwrap().is_empty());
}

#[test]
fn fetch_prefers_ajax_then_falls_back() {
    match after_ajax(Ok(vec![item("1")])) {
        FetchProgress::Finished(f) => {
            assert_eq!(f.source, TodoSourceKind::Ajax);
            assert_eq!(f.items[0].id, "1");
        }
        FetchProgress::FallBack(_) => panic!("non-empty AJAX list is the answer"),
    }
    assert!(matches!(after_ajax(Ok(vec![])), FetchProgress::FallBack(None)));
    match after_ajax(Err("boom".to_string())) {
        FetchProgress::FallBack(Some(e)) => assert_eq!(e, "boom"),
        _ => panic!("an AJAX failure falls back"),
    }
    let f = after_ical(Some("boom".to_string()), Ok(vec![])).unwrap();
    assert_eq!(f.source, TodoSourceKind::Ical);
    assert!(f.items.is_empty());
    assert_eq!(after_ical(Some("a".to_string()), Err("b".to_string())).unwrap_err(), "ajax: a; ical: b");
    assert_eq!(after_ical(None, Err("b".to_string())).unwrap_err(), "b");
}

#[test]
fn shell_commands() {
    assert_eq!(greet("Ada"), "Hello, Ada! You've been greeted from Rust!");
    assert_eq!(tray_action("show"), TrayAction::Show);
    assert_eq!(tray_action("refresh"), TrayAction::Refresh);
    assert_eq!(tray_action("login"), TrayAction::Login);
    assert_eq!(tray_action("quit"), TrayAction::Quit);
    assert_eq!(tray_action("Quit"), TrayAction::Ignore);
}

#[test]
fn one_harvest_at_a_time() {
    let mut latch = HarvestLatch::new();
    assert!(latch.begin());
    assert!(!latch.begin());
    latch.finish(false);
    assert!(latch.begin());
    latch.finish(true);
    assert!(!latch.begin());
    latch.reopen();
    assert!(latch.begin());
}

#[test]
fn a_session_must_open_my_page() {
    assert_eq!(check_session_alive(true), Ok(()));
    assert_eq!(check_session_alive(false).unwrap_err(), "Moodle session cookie was rejected by /my/");
}
