//! Moodle's AJAX service: the action events of the calendar, read page by
//! page and mapped to to-do items.
use vstd::prelude::*;
use crate::text::{chars_eq_str, chars_of, push_signed, push_str, signed_decimal};
use crate::time::{unix_iso8601, unix_to_iso8601};
use crate::todo::{TodoItem, TodoItemView, TodoKind, item_views, opt_view};

verus! {

/// The AJAX endpoint of the Moodle site.
pub const AJAX_URL: &'static str = "https://moodle.hku.hk/lib/ajax/service.php";

/// The web-service method that lists the calendar's action events.
pub const AJAX_METHOD: &'static str = "core_calendar_get_action_events_by_timesort";

/// Events asked for per page; Moodle rejects a `limitnum` outside `1..=50`.
pub const PAGE_SIZE: u32 = 50;

/// The most pages read in one refresh.
pub const MAX_PAGES: u32 = 20;

/// The course of an event.
#[derive(Debug, Clone)]
pub struct AjaxCourse {
    pub shortname: Option<String>,
    pub fullname: Option<String>,
}

/// The action that an event asks for.
#[derive(Debug, Clone)]
pub struct AjaxAction {
    pub url: Option<String>,
}

/// The fields of a calendar action event that the client reads.
#[derive(Debug, Clone)]
pub struct AjaxEvent {
    pub id: Option<i64>,
    pub name: Option<String>,
    pub modulename: Option<String>,
    pub timestart: Option<i64>,
    pub timesort: Option<i64>,
    pub url: Option<String>,
    pub course: Option<AjaxCourse>,
    pub action: Option<AjaxAction>,
}

/// The exception of a failed call.
#[derive(Debug, Clone)]
pub struct AjaxException {
    pub errorcode: Option<String>,
    pub message: Option<String>,
}

/// The result of a successful call.
#[derive(Debug, Clone)]
pub struct AjaxData {
    pub events: Vec<AjaxEvent>,
}

/// One element of the JSON array that the service answers with.
#[derive(Debug, Clone)]
pub struct AjaxEnvelope {
    pub error: bool,
    pub data: Option<AjaxData>,
    pub exception: Option<AjaxException>,
}

/// The kind of an event from its Moodle module name.
pub open spec fn module_kind(m: Seq<char>) -> TodoKind {
    if m == "assign"@ || m == "assignment"@ {
        TodoKind::Assignment
    } else if m == "turnitintooltwo"@ || m == "turnitintool"@ || m == "turnitin"@ {
        TodoKind::Turnitin
    } else if m == "quiz"@ || m == "quizattempt"@ {
        TodoKind::Assessment
    } else if m == "enrol"@ || m == "enroll"@ || m == "registration"@ {
        TodoKind::Registration
    } else {
        TodoKind::Other
    }
}

fn module_kind_exec(m: &Vec<char>) -> (r: TodoKind)
    ensures
        r == module_kind(m@),
{
    if chars_eq_str(m, "assign") || chars_eq_str(m, "assignment") {
        TodoKind::Assignment
    } else if chars_eq_str(m, "turnitintooltwo") || chars_eq_str(m, "turnitintool")
        || chars_eq_str(m, "turnitin") {
        TodoKind::Turnitin
    } else if chars_eq_str(m, "quiz") || chars_eq_str(m, "quizattempt") {
        TodoKind::Assessment
    } else if chars_eq_str(m, "enrol") || chars_eq_str(m, "enroll") || chars_eq_str(
        m,
        "registration",
    ) {
        TodoKind::Registration
    } else {
        TodoKind::Other
    }
}

/// The kind of an AJAX event from its `modulename`.
pub fn kind_from_modulename(modulename: &str) -> (r: TodoKind)
    ensures
        r == module_kind(modulename@),
{
    let m = chars_of(modulename);
    module_kind_exec(&m)
}

/// The value, when there is one and it is not empty.
pub open spec fn non_empty(o: Option<Seq<char>>) -> Option<Seq<char>> {
    match o {
        Some(s) => if s.len() > 0 {
            Some(s)
        } else {
            None
        },
        None => None,
    }
}

/// The first of two options that has a value.
pub open spec fn or_else<T>(a: Option<T>, b: Option<T>) -> Option<T> {
    match a {
        Some(v) => Some(v),
        None => b,
    }
}

/// The to-do item of an AJAX event: it needs a non-empty name, a time
/// (`timestart`, else `timesort`) and a non-empty link (the event's, else
/// its action's). The course is the non-empty short name, else the
/// non-empty full name; a missing id reads as `0`.
pub open spec fn ajax_item(e: AjaxEvent) -> Option<TodoItemView> {
    let title = non_empty(opt_view(e.name));
    let time = or_else(e.timestart, e.timesort);
    let action_url = match e.action {
        Some(a) => opt_view(a.url),
        None => None,
    };
    let url = non_empty(or_else(non_empty(opt_view(e.url)), action_url));
    let course = match e.course {
        Some(c) => or_else(non_empty(opt_view(c.shortname)), non_empty(opt_view(c.fullname))),
        None => None,
    };
    let module = match opt_view(e.modulename) {
        Some(m) => m,
        None => Seq::empty(),
    };
    match (title, time, url) {
        (Some(title), Some(time), Some(url)) => Some(
            TodoItemView {
                id: signed_decimal(
                    match e.id {
                        Some(i) => i as int,
                        None => 0,
                    },
                ),
                title: title,
                course: course,
                kind: module_kind(module),
                deadline: unix_iso8601(time as int),
                url: url,
            },
        ),
        _ => None,
    }
}

/// The string, when there is one and it is not empty.
fn non_empty_exec(o: &Option<String>) -> (r: Option<String>)
    ensures
        opt_view(r) == non_empty(opt_view(*o)),
{
    match o {
        Some(s) => if s.as_str().is_empty() {
            None
        } else {
            Some(s.clone())
        },
        None => None,
    }
}

/// The to-do item of an AJAX event, when it has a name, a time and a link.
pub fn todo_from_ajax(event: AjaxEvent) -> (r: Option<TodoItem>)
    ensures
        match r {
            Some(t) => ajax_item(event) == Some(t@),
            None => ajax_item(event) is None,
        },
{
    item_of_event(&event)
}

fn item_of_event(event: &AjaxEvent) -> (r: Option<TodoItem>)
    ensures
        match r {
            Some(t) => ajax_item(*event) == Some(t@),
            None => ajax_item(*event) is None,
        },
{
    let title = match non_empty_exec(&event.name) {
        Some(t) => t,
        None => {
            return None;
        },
    };
    let time = match event.timestart {
        Some(t) => t,
        None => match event.timesort {
            Some(t) => t,
            None => {
                return None;
            },
        },
    };
    let url = match non_empty_exec(&event.url) {
        Some(u) => u,
        None => match &event.action {
            Some(a) => match non_empty_exec(&a.url) {
                Some(u) => u,
                None => {
                    return None;
                },
            },
            None => {
                return None;
            },
        },
    };
    let course = match &event.course {
        Some(c) => match non_empty_exec(&c.shortname) {
            Some(s) => Some(s),
            None => non_empty_exec(&c.fullname),
        },
        None => None,
    };
    let kind = match &event.modulename {
        Some(m) => kind_from_modulename(m.as_str()),
        None => {
            let empty: Vec<char> = Vec::new();
            module_kind_exec(&empty)
        },
    };
    let mut id = String::new();
    push_signed(
        &mut id,
        match event.id {
            Some(i) => i,
            None => 0,
        },
    );
    assert(id@ =~= signed_decimal(
        match event.id {
            Some(i) => i as int,
            None => 0,
        },
    ));
    let deadline = unix_to_iso8601(time);
    let item = TodoItem { id, title, course, kind, deadline, url };
    assert(ajax_item(*event) == Some(item@));
    Some(item)
}

/// The id of an AJAX event, used to ask for the page after it.
pub fn ajax_event_id(event: &AjaxEvent) -> (r: Option<i64>)
    ensures
        r == event.id,
{
    event.id
}


/// The message of a failed call: `errorcode: message`, with `unknown` and
/// `AJAX error` for the parts the exception lacks.
pub open spec fn exception_message(ex: Option<AjaxException>) -> Seq<char> {
    let code = match ex {
        Some(e) => match opt_view(e.errorcode) {
            Some(c) => c,
            None => "unknown"@,
        },
        None => "unknown"@,
    };
    let message = match ex {
        Some(e) => match opt_view(e.message) {
            Some(m) => m,
            None => "AJAX error"@,
        },
        None => "AJAX error"@,
    };
    code + seq![':', ' '] + message
}

/// What the first envelope of an answer says: its events, or the error.
pub open spec fn envelope_events(envelopes: Seq<AjaxEnvelope>) -> Result<Seq<AjaxEvent>, Seq<char>> {
    if envelopes.len() == 0 {
        Err("empty AJAX envelope"@)
    } else if envelopes[0].error {
        Err(exception_message(envelopes[0].exception))
    } else {
        match envelopes[0].data {
            Some(d) => Ok(d.events@),
            None => Ok(Seq::empty()),
        }
    }
}

fn option_text(o: &Option<String>, default: &str) -> (r: String)
    ensures
        r@ == match opt_view(*o) {
            Some(v) => v,
            None => default@,
        },
{
    let mut r = String::new();
    match o {
        Some(v) => push_str(&mut r, v.as_str()),
        None => push_str(&mut r, default),
    }
    assert(r@ =~= match opt_view(*o) {
        Some(v) => v,
        None => default@,
    });
    r
}

/// The events of an AJAX answer (the envelopes parsed from its JSON), or
/// the error that its first envelope reports.
pub fn events_from_envelopes(envelopes: Vec<AjaxEnvelope>) -> (r: Result<Vec<AjaxEvent>, String>)
    ensures
        match r {
            Ok(v) => envelope_events(envelopes@) == Ok::<Seq<AjaxEvent>, Seq<char>>(v@),
            Err(e) => envelope_events(envelopes@) == Err::<Seq<AjaxEvent>, Seq<char>>(e@),
        },
{
    let mut envelopes = envelopes;
    if envelopes.len() == 0 {
        let mut e = String::new();
        push_str(&mut e, "empty AJAX envelope");
        assert(e@ =~= "empty AJAX envelope"@);
        return Err(e);
    }
    let first = envelopes.remove(0);
    if first.error {
        let (code, message) = match &first.exception {
            Some(ex) => (option_text(&ex.errorcode, "unknown"), option_text(&ex.message, "AJAX error")),
            None => (option_text(&None, "unknown"), option_text(&None, "AJAX error")),
        };
        let mut e = String::new();
        push_str(&mut e, code.as_str());
        push_str(&mut e, ": ");
        push_str(&mut e, message.as_str());
        proof {
            reveal_strlit(": ");
        }
        assert(e@ =~= exception_message(first.exception));
        return Err(e);
    }
    match first.data {
        Some(d) => Ok(d.events),
        None => Ok(Vec::new()),
    }
}

/// The arguments of one call of [`AJAX_METHOD`].
#[derive(Debug, Clone)]
pub struct AjaxRequestArgs {
    pub limitnum: u32,
    pub timesortfrom: i64,
    pub limittononsuspendedevents: bool,
    pub aftereventid: Option<i64>,
}

/// The arguments for the page after event `aftereventid` (the first page
/// when there is none): a full page of events from time `0`, so that
/// overdue items stay visible, of non-suspended courses only.
pub fn ajax_request_args(aftereventid: Option<i64>) -> (r: AjaxRequestArgs)
    ensures
        r.limitnum == PAGE_SIZE,
        r.timesortfrom == 0,
        r.limittononsuspendedevents,
        r.aftereventid == aftereventid,
{
    AjaxRequestArgs {
        limitnum: PAGE_SIZE,
        timesortfrom: 0,
        limittononsuspendedevents: true,
        aftereventid,
    }
}

/// The state of one read of the action events, page by page.
pub struct AjaxPager {
    items: Vec<TodoItem>,
    after: Option<i64>,
    pages: u32,
    done: bool,
}

/// The mathematical state of an [`AjaxPager`]: the items so far, the id
/// to read after, the pages read, and whether reading has ended.
pub struct PagerState {
    pub items: Seq<TodoItemView>,
    pub after: Option<i64>,
    pub pages: nat,
    pub done: bool,
}

impl View for AjaxPager {
    type V = PagerState;

    closed spec fn view(&self) -> PagerState {
        PagerState {
            items: item_views(self.items@),
            after: self.after,
            pages: self.pages as nat,
            done: self.done,
        }
    }
}

/// The page to ask for next, if any: the one after `after`, while reading
/// has not ended and fewer than [`MAX_PAGES`] pages were read.
pub open spec fn pager_request(p: PagerState) -> Option<Option<i64>> {
    if p.done || p.pages >= MAX_PAGES {
        None
    } else {
        Some(p.after)
    }
}

/// The state after reading `page`: an empty page ends the read; otherwise
/// its events that make items are added, and the read goes on after the
/// page's last event unless the page is short, or its last event has no
/// id or the id it was asked after.
pub open spec fn pager_next(p: PagerState, page: Seq<AjaxEvent>) -> PagerState {
    if page.len() == 0 {
        PagerState { done: true, pages: p.pages + 1, ..p }
    } else {
        let items = p.items + page.filter_map(|e: AjaxEvent| ajax_item(e));
        let last = page.last().id;
        let more = page.len() >= PAGE_SIZE && match last {
            Some(id) => p.after != Some(id),
            None => false,
        };
        PagerState {
            items: items,
            after: if more { last } else { p.after },
            pages: p.pages + 1,
            done: !more,
        }
    }
}

impl AjaxPager {
    /// A read that has not started.
    pub fn new() -> (r: AjaxPager)
        ensures
            r@ == (PagerState { items: Seq::empty(), after: None, pages: 0, done: false }),
    {
        let r = AjaxPager { items: Vec::new(), after: None, pages: 0, done: false };
        assert(r@.items =~= Seq::<TodoItemView>::empty());
        r
    }

    /// `Some(after)` to ask for the page after event `after` (the first
    /// page when `None`); `None` once reading has ended.
    pub fn next_request(&self) -> (r: Option<Option<i64>>)
        ensures
            r == pager_request(self@),
    {
        if self.done || self.pages >= MAX_PAGES {
            None
        } else {
            Some(self.after)
        }
    }

    /// Takes in the page that [`Self::next_request`] asked for.
    pub fn accept_page(&mut self, page: Vec<AjaxEvent>)
        requires
            pager_request(old(self)@) is Some,
        ensures
            final(self)@ == pager_next(old(self)@, page@),
    {
        let ghost before = self@;
        self.pages = self.pages + 1;
        if page.len() == 0 {
            self.done = true;
            assert(self@ == pager_next(before, page@));
            return;
        }
        let page_len = page.len();
        let last_id = ajax_event_id(&page[page_len - 1]);
        let mut k: usize = 0;
        let ghost start_items = self.items@;
        while k < page.len()
            invariant
                k <= page@.len(),
                page_len == page@.len(),
                self.after == before.after,
                self.pages == before.pages + 1,
                !self.done,
                !before.done,
                item_views(self.items@) == item_views(start_items) + page@.take(k as int).filter_map(
                    |e: AjaxEvent| ajax_item(e),
                ),
            decreases page@.len() - k,
        {
            let ghost prev = item_views(self.items@);
            match item_of_event(&page[k]) {
                Some(item) => {
                    let ghost iv = item@;
                    self.items.push(item);
                    assert(item_views(self.items@) =~= prev.push(iv));
                },
                None => {},
            }
            proof {
                let t = page@.take(k + 1);
                assert(t.drop_last() =~= page@.take(k as int));
                assert(t.last() == page@[k as int]);
                assert(item_views(self.items@) =~= item_views(start_items) + t.filter_map(
                    |e: AjaxEvent| ajax_item(e),
                ));
            }
            k += 1;
        }
        assert(page@.take(page@.len() as int) =~= page@);
        let more = page_len >= PAGE_SIZE as usize && match last_id {
            Some(id) => match self.after {
                Some(a) => a != id,
                None => true,
            },
            None => false,
        };
        if more {
            self.after = last_id;
        } else {
            self.done = true;
        }
        assert(self@ == pager_next(before, page@));
    }

    /// The items read so far.
    pub fn into_items(self) -> (r: Vec<TodoItem>)
        ensures
            item_views(r@) == self@.items,
    {
        self.items
    }
}

/// Reading the pages `pages` in turn, from state `p`, for as long as the
/// pager asks for more.
pub open spec fn pager_run(p: PagerState, pages: Seq<Seq<AjaxEvent>>) -> PagerState
    decreases pages.len(),
{
    if pages.len() == 0 || pager_request(p) is None {
        p
    } else {
        pager_run(pager_next(p, pages[0]), pages.drop_first())
    }
}

/// However the service answers, one read asks for at most [`MAX_PAGES`]
/// pages, and the items it collects extend the items it started with.
pub proof fn lemma_pager_run_bounded(p: PagerState, pages: Seq<Seq<AjaxEvent>>)
    requires
        p.pages <= MAX_PAGES,
    ensures
        pager_run(p, pages).pages <= MAX_PAGES,
        pager_run(p, pages).pages <= p.pages + pages.len(),
        pager_run(p, pages).items.subrange(0, p.items.len() as int) == p.items,
        p.items.len() <= pager_run(p, pages).items.len(),
    decreases pages.len(),
{
    if pages.len() == 0 || pager_request(p) is None {
        assert(p.items.subrange(0, p.items.len() as int) =~= p.items);
    } else {
        let q = pager_next(p, pages[0]);
        lemma_pager_run_bounded(q, pages.drop_first());
        let r = pager_run(q, pages.drop_first());
        assert(q.items.subrange(0, p.items.len() as int) =~= p.items);
        assert(r.items.subrange(0, p.items.len() as int) =~= q.items.subrange(
            0,
            p.items.len() as int,
        ));
    }
}

/// The module names of each kind, exactly as Moodle spells them: the
/// assignment modules, the Turnitin modules, the quiz modules, and
/// enrolment (`enrol`, `enroll`) or `registration`; any other name,
/// including one in another case, is of no known kind.
pub proof fn lemma_module_kinds(m: Seq<char>)
    ensures
        module_kind(m) == TodoKind::Assignment <==> (m == "assign"@ || m == "assignment"@),
        module_kind(m) == TodoKind::Turnitin <==> (m == "turnitintooltwo"@ || m == "turnitintool"@
            || m == "turnitin"@),
        module_kind(m) == TodoKind::Assessment <==> (m == "quiz"@ || m == "quizattempt"@),
        module_kind(m) == TodoKind::Registration <==> (m == "enrol"@ || m == "enroll"@ || m
            == "registration"@),
        module_kind(m) == TodoKind::Other <==> !(m == "assign"@ || m == "assignment"@ || m
            == "turnitintooltwo"@ || m == "turnitintool"@ || m == "turnitin"@ || m == "quiz"@ || m
            == "quizattempt"@ || m == "enrol"@ || m == "enroll"@ || m == "registration"@),
{
    reveal_strlit("assign");
    reveal_strlit("assignment");
    reveal_strlit("turnitintooltwo");
    reveal_strlit("turnitintool");
    reveal_strlit("turnitin");
    reveal_strlit("quiz");
    reveal_strlit("quizattempt");
    reveal_strlit("enrol");
    reveal_strlit("enroll");
    reveal_strlit("registration");
    let names = seq![
        "assign"@, "assignment"@, "turnitintooltwo"@, "turnitintool"@, "turnitin"@, "quiz"@,
        "quizattempt"@, "enrol"@, "enroll"@, "registration"@,
    ];
    assert forall|i: int, j: int| 0 <= i < j < names.len() implies names[i] != names[j] by {
        if names[i].len() == names[j].len() {
            assert(names[i][names[i].len() - 1] != names[j][names[j].len() - 1] || names[i][0]
                != names[j][0] || names[i][1] != names[j][1]);
        }
    }
    assert(names[7] != names[0] && names[7] != names[1] && names[7] != names[2] && names[7]
        != names[3] && names[7] != names[4] && names[7] != names[5] && names[7] != names[6]);
    assert(names[8] != names[0] && names[8] != names[1] && names[8] != names[2] && names[8]
        != names[3] && names[8] != names[4] && names[8] != names[5] && names[8] != names[6]);
    assert(names[9] != names[0] && names[9] != names[1] && names[9] != names[2] && names[9]
        != names[3] && names[9] != names[4] && names[9] != names[5] && names[9] != names[6]);
    assert(names[5] != names[0] && names[5] != names[1] && names[5] != names[2] && names[5]
        != names[3] && names[5] != names[4]);
    assert(names[6] != names[0] && names[6] != names[1] && names[6] != names[2] && names[6]
        != names[3] && names[6] != names[4]);
    assert(names[2] != names[0] && names[2] != names[1] && names[3] != names[0] && names[3]
        != names[1] && names[4] != names[0] && names[4] != names[1]);
}

/// One step of the read: it counts the page and adds the page's items
/// after the earlier ones. It goes on, asking for the page after the
/// page's last event, exactly when the page was full, its last event has
/// an id other than the one the page was asked after (whatever their
/// order), and the page limit is not reached; a short or empty page, a
/// last event without an id, or one that repeats the id asked after ends
/// the read.
pub proof fn lemma_pager_step(p: PagerState, page: Seq<AjaxEvent>)
    requires
        pager_request(p) is Some,
    ensures
        pager_next(p, page).pages == p.pages + 1,
        pager_next(p, page).items == p.items + page.filter_map(|e: AjaxEvent| ajax_item(e)),
        (page.len() >= PAGE_SIZE && page.last().id is Some && p.after != page.last().id && p.pages
            + 1 < MAX_PAGES) ==> pager_request(pager_next(p, page)) == Some(page.last().id),
        (page.len() < PAGE_SIZE || page.last().id is None || p.after == page.last().id)
            ==> pager_request(pager_next(p, page)) is None,
        p.pages + 1 >= MAX_PAGES ==> pager_request(pager_next(p, page)) is None,
{
    if page.len() == 0 {
        assert(page.filter_map(|e: AjaxEvent| ajax_item(e)) =~= Seq::<TodoItemView>::empty());
        assert(p.items + Seq::<TodoItemView>::empty() =~= p.items);
    }
}

/// Whether an optional string holds a non-empty text.
pub open spec fn has_text(o: Option<String>) -> bool {
    match o {
        Some(t) => t@.len() > 0,
        None => false,
    }
}

/// What the item of an AJAX event holds. An event yields an item exactly
/// when it has a non-empty name, a time, and a non-empty link of its own
/// or of its action. The deadline is `timestart` whenever there is one,
/// `timesort` only without it; the link is the event's own when it is not
/// empty, else its action's; the id is the event id (`0` without one) in
/// decimal; the kind follows the module name; the course is the non-empty
/// short name, else the non-empty full name, else none.
pub proof fn lemma_ajax_item_fields(e: AjaxEvent)
    ensures
        ajax_item(e) is Some <==> (has_text(e.name) && (e.timestart is Some || e.timesort is Some)
            && (has_text(e.url) || (e.action is Some && has_text(e.action->0.url)))),
        ajax_item(e) is Some ==> ajax_item(e)->0.title == e.name->0@,
        ajax_item(e) is Some && e.timestart is Some ==> ajax_item(e)->0.deadline == unix_iso8601(
            e.timestart->0 as int,
        ),
        ajax_item(e) is Some && e.timestart is None ==> ajax_item(e)->0.deadline == unix_iso8601(
            e.timesort->0 as int,
        ),
        ajax_item(e) is Some && has_text(e.url) ==> ajax_item(e)->0.url == e.url->0@,
        ajax_item(e) is Some && !has_text(e.url) ==> ajax_item(e)->0.url == e.action->0.url->0@,
        ajax_item(e) is Some && e.id is Some ==> ajax_item(e)->0.id == signed_decimal(
            e.id->0 as int,
        ),
        ajax_item(e) is Some && e.id is None ==> ajax_item(e)->0.id == signed_decimal(0),
        ajax_item(e) is Some && e.modulename is Some ==> ajax_item(e)->0.kind == module_kind(
            e.modulename->0@,
        ),
        ajax_item(e) is Some && e.modulename is None ==> ajax_item(e)->0.kind == TodoKind::Other,
        ajax_item(e) is Some && e.course is Some && has_text(e.course->0.shortname) ==> ajax_item(
            e,
        )->0.course == Some(e.course->0.shortname->0@),
        ajax_item(e) is Some && e.course is Some && !has_text(e.course->0.shortname) && has_text(
            e.course->0.fullname,
        ) ==> ajax_item(e)->0.course == Some(e.course->0.fullname->0@),
        ajax_item(e) is Some && !(e.course is Some && (has_text(e.course->0.shortname) || has_text(
            e.course->0.fullname,
        ))) ==> ajax_item(e)->0.course is None,
{
    reveal_strlit("assign");
    reveal_strlit("assignment");
    reveal_strlit("turnitintooltwo");
    reveal_strlit("turnitintool");
    reveal_strlit("turnitin");
    reveal_strlit("quiz");
    reveal_strlit("quizattempt");
    reveal_strlit("enrol");
    reveal_strlit("enroll");
    reveal_strlit("registration");
    let none = Seq::<char>::empty();
    assert(none.len() == 0);
    assert(none != "assign"@ && none != "assignment"@ && none != "turnitintooltwo"@ && none
        != "turnitintool"@ && none != "turnitin"@);
    assert(none != "quiz"@ && none != "quizattempt"@ && none != "enrol"@ && none != "enroll"@
        && none != "registration"@);
    lemma_module_kinds(none);
    assert(module_kind(none) == TodoKind::Other);
}

} // verus!
