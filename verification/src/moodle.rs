//! The two ways of reading the to-do list (AJAX first, the calendar
//! export as fallback) and the requests they make.
use vstd::prelude::*;
use crate::ajax::{AJAX_METHOD, AJAX_URL};
use crate::auth::{SessionSecrets, cookie_header, cookie_header_of};
use crate::ics::{calendar_items, parse_ics};
use crate::text::{chars_of, contains_seq, contains_str, digit_char, join, owned, push_str};
use vstd::utf8::{encode_utf8, is_ascii_chars, is_ascii_chars_encode_utf8};
use crate::todo::{FetchResult, TodoItem, TodoSourceKind, item_views};

verus! {

/// The calendar export form.
pub const EXPORT_URL: &'static str = "https://moodle.hku.hk/calendar/export.php";

/// The `User-Agent` of the client's requests.
pub fn user_agent() -> (r: &'static str)
    ensures
        r@ == "Mozilla/5.0 (HKU Moodle Helper)"@,
{
    "Mozilla/5.0 (HKU Moodle Helper)"
}

/// The upper-case hexadecimal digit of `d` in `0..16`.
pub open spec fn hex_upper(d: int) -> char {
    if d < 10 {
        digit_char(d)
    } else if d == 10 {
        'A'
    } else if d == 11 {
        'B'
    } else if d == 12 {
        'C'
    } else if d == 13 {
        'D'
    } else if d == 14 {
        'E'
    } else {
        'F'
    }
}

/// A byte that the serialiser writes as it is: an ASCII letter or digit,
/// `*`, `-`, `.` or `_`.
pub open spec fn form_unchanged_byte(b: u8) -> bool {
    ||| b == 0x2a || b == 0x2d || b == 0x2e || b == 0x5f
    ||| 0x30 <= b <= 0x39
    ||| 0x41 <= b <= 0x5a
    ||| 0x61 <= b <= 0x7a
}

/// The serialisation of one byte: itself, `+` for a space, else `%` and
/// two upper-case hexadecimal digits.
pub open spec fn form_byte(b: u8) -> Seq<char> {
    if form_unchanged_byte(b) {
        seq![b as char]
    } else if b == 0x20 {
        seq!['+']
    } else {
        seq!['%', hex_upper((b / 16) as int), hex_upper((b % 16) as int)]
    }
}

/// The serialisation of a byte string, byte by byte.
pub open spec fn form_bytes(bs: Seq<u8>) -> Seq<char>
    decreases bs.len(),
{
    if bs.len() == 0 {
        Seq::empty()
    } else {
        form_byte(bs[0]) + form_bytes(bs.drop_first())
    }
}

/// The `application/x-www-form-urlencoded` serialisation of one string: of
/// its UTF-8 bytes.
pub open spec fn form_encode(s: Seq<char>) -> Seq<char> {
    form_bytes(encode_utf8(s))
}

/// The serialisation of ASCII text, character by character.
pub open spec fn ascii_form(s: Seq<char>) -> Seq<char>
    decreases s.len(),
{
    if s.len() == 0 {
        Seq::empty()
    } else {
        form_byte(s[0] as u8) + ascii_form(s.drop_first())
    }
}

/// ASCII text is serialised character by character.
pub proof fn lemma_form_encode_ascii(s: Seq<char>)
    requires
        is_ascii_chars(s),
    ensures
        form_encode(s) == ascii_form(s),
    decreases s.len(),
{
    is_ascii_chars_encode_utf8(s);
    if s.len() > 0 {
        let rest = s.drop_first();
        assert(is_ascii_chars(rest)) by {
            assert forall|i: int| 0 <= i < rest.len() implies '\0' <= #[trigger] rest[i] <= '\u{7f}' by {
                assert(rest[i] == s[i + 1]);
            }
        }
        lemma_form_encode_ascii(rest);
        let b = encode_utf8(s);
        assert('\0' <= s[0] <= '\u{7f}');
        assert(vstd::utf8::encode_scalar(s[0] as u32).len() == 1);
        assert(b.drop_first() =~= encode_utf8(rest));
    }
}

/// One `name=value` pair of a form body.
pub open spec fn form_pair(p: (Seq<char>, Seq<char>)) -> Seq<char> {
    form_encode(p.0) + seq!['='] + form_encode(p.1)
}

/// A form body: the pairs, in order, each `name=value`, joined by `&`.
pub open spec fn form_urlencoded(pairs: Seq<(Seq<char>, Seq<char>)>) -> Seq<char> {
    join(pairs.map_values(|p: (Seq<char>, Seq<char>)| form_pair(p)), seq!['&'])
}

/// `url::form_urlencoded::Serializer`: serialises the pairs in order with
/// `extend_pairs` into an empty string: each pair as the encoded name, `=`
/// and the encoded value, pairs separated by `&`; each string is encoded
/// byte by byte from its UTF-8 form (`byte_serialize`).
#[verifier::external_body]
fn form_urlencode(pairs: &Vec<(String, String)>) -> (r: String)
    ensures
        r@ == form_urlencoded(pairs@.map_values(|p: (String, String)| (p.0@, p.1@))),
{
    url::form_urlencoded::Serializer::new(String::new()).extend_pairs(pairs.iter()).finish()
}

/// The AJAX interface of a logged-in session.
pub struct AjaxSession<'a> {
    secrets: &'a SessionSecrets,
}

impl<'a> AjaxSession<'a> {
    /// The session whose requests these are.
    pub closed spec fn secrets(&self) -> SessionSecrets {
        *self.secrets
    }

    /// The requests of `secrets`.
    pub fn new(secrets: &'a SessionSecrets) -> (r: Self)
        ensures
            r.secrets() == *secrets,
    {
        AjaxSession { secrets }
    }

    /// The service URL for one call: `sesskey` and method in the query.
    pub fn service_url(&self) -> (r: String)
        ensures
            r@ == AJAX_URL@ + "?sesskey="@ + self.secrets().sesskey@ + "&info="@ + AJAX_METHOD@,
    {
        let mut u = owned(AJAX_URL);
        push_str(&mut u, "?sesskey=");
        push_str(&mut u, self.secrets.sesskey.as_str());
        push_str(&mut u, "&info=");
        push_str(&mut u, AJAX_METHOD);
        u
    }

    /// The `Cookie` header of the session.
    pub fn cookie(&self) -> (r: String)
        ensures
            r@ == cookie_header_of(self.secrets().cookies@),
    {
        cookie_header(self.secrets)
    }
}

/// The calendar export of a logged-in session.
pub struct Ical<'a> {
    secrets: &'a SessionSecrets,
}

/// The fields of the export form: every event, over the custom period.
pub open spec fn export_form_pairs(sesskey: Seq<char>) -> Seq<(Seq<char>, Seq<char>)> {
    seq![
        ("sesskey"@, sesskey),
        ("_qf__core_calendar_export_form"@, "1"@),
        ("events[exportevents]"@, "all"@),
        ("period[timeperiod]"@, "custom"@),
        ("export"@, "1"@),
    ]
}

impl<'a> Ical<'a> {
    /// The session whose requests these are.
    pub closed spec fn secrets(&self) -> SessionSecrets {
        *self.secrets
    }

    /// The requests of `secrets`.
    pub fn new(secrets: &'a SessionSecrets) -> (r: Self)
        ensures
            r.secrets() == *secrets,
    {
        Ical { secrets }
    }

    /// The body of the export form's POST.
    pub fn form_body(&self) -> (r: String)
        ensures
            r@ == form_urlencoded(export_form_pairs(self.secrets().sesskey@)),
            r@ == "sesskey="@ + form_encode(self.secrets().sesskey@)
                + "&_qf__core_calendar_export_form=1&events%5Bexportevents%5D=all&period%5Btimeperiod%5D=custom&export=1"@,
    {
        let mut pairs: Vec<(String, String)> = Vec::new();
        pairs.push((owned("sesskey"), self.secrets.sesskey.clone()));
        pairs.push((owned("_qf__core_calendar_export_form"), owned("1")));
        pairs.push((owned("events[exportevents]"), owned("all")));
        pairs.push((owned("period[timeperiod]"), owned("custom")));
        pairs.push((owned("export"), owned("1")));
        let ghost fields = export_form_pairs(self.secrets().sesskey@);
        assert(pairs@.map_values(|p: (String, String)| (p.0@, p.1@)) =~= fields);
        let r = form_urlencode(&pairs);
        proof {
            lemma_export_form_body(self.secrets().sesskey@);
        }
        r
    }

    /// The `Cookie` header of the session.
    pub fn cookie(&self) -> (r: String)
        ensures
            r@ == cookie_header_of(self.secrets().cookies@),
    {
        cookie_header(self.secrets)
    }
}

/// The fields of the export form after the `sesskey`.
pub open spec fn export_form_fixed_pairs() -> Seq<(Seq<char>, Seq<char>)> {
    seq![
        ("_qf__core_calendar_export_form"@, "1"@),
        ("events[exportevents]"@, "all"@),
        ("period[timeperiod]"@, "custom"@),
        ("export"@, "1"@),
    ]
}

proof fn lemma_ascii_form_unchanged(s: Seq<char>)
    requires
        forall|i: int| 0 <= i < s.len() ==> '\0' <= #[trigger] s[i] <= '\u{7f}' && form_unchanged_byte(s[i] as u8),
    ensures
        ascii_form(s) == s,
    decreases s.len(),
{
    if s.len() > 0 {
        let rest = s.drop_first();
        assert forall|i: int| 0 <= i < rest.len() implies '\0' <= #[trigger] rest[i] <= '\u{7f}'
            && form_unchanged_byte(rest[i] as u8) by {
            assert(rest[i] == s[i + 1]);
        }
        lemma_ascii_form_unchanged(rest);
        assert(((s[0] as u8) as char) == s[0]);
        assert(ascii_form(s) =~= s);
    }
}

/// A string of letters, digits, `*`, `-`, `.` and `_` is serialised as
/// itself.
proof fn lemma_form_encode_unchanged(s: Seq<char>)
    requires
        forall|i: int| 0 <= i < s.len() ==> '\0' <= #[trigger] s[i] <= '\u{7f}' && form_unchanged_byte(s[i] as u8),
    ensures
        form_encode(s) == s,
{
    lemma_form_encode_ascii(s);
    lemma_ascii_form_unchanged(s);
}

proof fn lemma_ascii_form_concat(a: Seq<char>, b: Seq<char>)
    ensures
        ascii_form(a + b) == ascii_form(a) + ascii_form(b),
    decreases a.len(),
{
    if a.len() > 0 {
        lemma_ascii_form_concat(a.drop_first(), b);
        assert((a + b).drop_first() =~= a.drop_first() + b);
        assert(ascii_form(a + b) =~= ascii_form(a) + ascii_form(b));
    } else {
        assert(a + b =~= b);
    }
}

proof fn lemma_form_encode_bracketed(name: Seq<char>, inner: Seq<char>)
    requires
        forall|i: int| 0 <= i < name.len() ==> '\0' <= #[trigger] name[i] <= '\u{7f}' && form_unchanged_byte(name[i] as u8),
        forall|i: int| 0 <= i < inner.len() ==> '\0' <= #[trigger] inner[i] <= '\u{7f}' && form_unchanged_byte(inner[i] as u8),
    ensures
        form_encode(name + seq!['['] + inner + seq![']']) == name + seq!['%', '5', 'B'] + inner + seq!['%', '5', 'D'],
{
    let s = name + seq!['['] + inner + seq![']'];
    assert(is_ascii_chars(s)) by {
        assert forall|i: int| 0 <= i < s.len() implies '\0' <= #[trigger] s[i] <= '\u{7f}' by {
            if i < name.len() {
                assert(s[i] == name[i]);
            } else if i == name.len() {
            } else if i < name.len() + 1 + inner.len() {
                assert(s[i] == inner[i - name.len() - 1]);
            }
        }
    }
    lemma_form_encode_ascii(s);
    lemma_ascii_form_unchanged(name);
    lemma_ascii_form_unchanged(inner);
    lemma_ascii_form_concat(name, seq!['[']);
    lemma_ascii_form_concat(name + seq!['['], inner);
    lemma_ascii_form_concat(name + seq!['['] + inner, seq![']']);
    reveal_with_fuel(ascii_form, 2);
    assert(ascii_form(seq!['[']) =~= seq!['%', '5', 'B']);
    assert(ascii_form(seq![']']) =~= seq!['%', '5', 'D']);
}

proof fn lemma_form_encode_literals()
    ensures
        form_encode("_qf__core_calendar_export_form"@) == "_qf__core_calendar_export_form"@,
        form_encode("1"@) == "1"@,
        form_encode("all"@) == "all"@,
        form_encode("custom"@) == "custom"@,
        form_encode("export"@) == "export"@,
{
    reveal_strlit("_qf__core_calendar_export_form");
    reveal_strlit("1");
    reveal_strlit("all");
    reveal_strlit("custom");
    reveal_strlit("export");
    lemma_form_encode_unchanged("_qf__core_calendar_export_form"@);
    lemma_form_encode_unchanged("1"@);
    lemma_form_encode_unchanged("all"@);
    lemma_form_encode_unchanged("custom"@);
    lemma_form_encode_unchanged("export"@);
}

proof fn lemma_form_encode_bracket_literals()
    ensures
        form_encode("events[exportevents]"@) == "events%5Bexportevents%5D"@,
        form_encode("period[timeperiod]"@) == "period%5Btimeperiod%5D"@,
{
    reveal_strlit("events");
    reveal_strlit("exportevents");
    reveal_strlit("period");
    reveal_strlit("timeperiod");
    reveal_strlit("events[exportevents]");
    reveal_strlit("events%5Bexportevents%5D");
    reveal_strlit("period[timeperiod]");
    reveal_strlit("period%5Btimeperiod%5D");
    lemma_form_encode_bracketed("events"@, "exportevents"@);
    lemma_form_encode_bracketed("period"@, "timeperiod"@);
    assert("events[exportevents]"@ =~= "events"@ + seq!['['] + "exportevents"@ + seq![']']);
    assert("events%5Bexportevents%5D"@ =~= "events"@ + seq!['%', '5', 'B'] + "exportevents"@ + seq!['%', '5', 'D']);
    assert("period[timeperiod]"@ =~= "period"@ + seq!['['] + "timeperiod"@ + seq![']']);
    assert("period%5Btimeperiod%5D"@ =~= "period"@ + seq!['%', '5', 'B'] + "timeperiod"@ + seq!['%', '5', 'D']);
}

/// The form body: the `sesskey` as the serialiser encodes it, then the
/// fixed fields.
proof fn lemma_export_form_body(sesskey: Seq<char>)
    ensures
        form_urlencoded(export_form_pairs(sesskey)) == "sesskey="@ + form_encode(sesskey)
            + "&_qf__core_calendar_export_form=1&events%5Bexportevents%5D=all&period%5Btimeperiod%5D=custom&export=1"@,
{
    reveal_strlit("sesskey");
    reveal_strlit("sesskey=");
    assert(is_ascii_chars("sesskey"@));
    lemma_form_encode_ascii("sesskey"@);
    reveal_with_fuel(ascii_form, 8);
    assert(ascii_form("sesskey"@) =~= "sesskey"@);
    assert(form_encode("sesskey"@) == "sesskey"@);
    let ps = export_form_pairs(sesskey).map_values(|p: (Seq<char>, Seq<char>)| form_pair(p));
    assert(ps.drop_first() =~= export_form_fixed_pairs().map_values(
        |p: (Seq<char>, Seq<char>)| form_pair(p),
    ));
    lemma_export_form_fixed_body();
    let fixed = "_qf__core_calendar_export_form=1&events%5Bexportevents%5D=all&period%5Btimeperiod%5D=custom&export=1"@;
    let tail = "&_qf__core_calendar_export_form=1&events%5Bexportevents%5D=all&period%5Btimeperiod%5D=custom&export=1"@;
    reveal_strlit(
        "_qf__core_calendar_export_form=1&events%5Bexportevents%5D=all&period%5Btimeperiod%5D=custom&export=1",
    );
    reveal_strlit(
        "&_qf__core_calendar_export_form=1&events%5Bexportevents%5D=all&period%5Btimeperiod%5D=custom&export=1",
    );
    assert(tail =~= seq!['&'] + fixed);
    assert(form_urlencoded(export_form_pairs(sesskey)) == "sesskey"@ + seq!['='] + form_encode(sesskey)
        + seq!['&'] + fixed);
    assert("sesskey"@ + seq!['='] + form_encode(sesskey) + seq!['&'] + fixed =~= "sesskey="@
        + form_encode(sesskey) + tail);
}

/// The part of the export form after the `sesskey`, as the serialiser
/// writes it.
proof fn lemma_export_form_fixed_body()
    ensures
        form_urlencoded(export_form_fixed_pairs())
            == "_qf__core_calendar_export_form=1&events%5Bexportevents%5D=all&period%5Btimeperiod%5D=custom&export=1"@,
{
    lemma_form_encode_literals();
    lemma_form_encode_bracket_literals();
    let amp = seq!['&'];
    let p0 = "_qf__core_calendar_export_form"@ + seq!['='] + "1"@;
    let p1 = "events%5Bexportevents%5D"@ + seq!['='] + "all"@;
    let p2 = "period%5Btimeperiod%5D"@ + seq!['='] + "custom"@;
    let p3 = "export"@ + seq!['='] + "1"@;
    let ps = export_form_fixed_pairs().map_values(|p: (Seq<char>, Seq<char>)| form_pair(p));
    assert(ps =~= seq![p0, p1, p2, p3]);
    let s3 = seq![p3];
    let s2 = seq![p2, p3];
    let s1 = seq![p1, p2, p3];
    assert(s1.drop_first() =~= s2);
    assert(s2.drop_first() =~= s3);
    assert(ps.drop_first() =~= s1);
    assert(join(s3, amp) == p3);
    assert(join(s2, amp) == p2 + amp + p3);
    assert(join(s1, amp) == p1 + amp + (p2 + amp + p3));
    assert(join(ps, amp) == p0 + amp + (p1 + amp + (p2 + amp + p3)));
    reveal_strlit("_qf__core_calendar_export_form");
    reveal_strlit("1");
    reveal_strlit("all");
    reveal_strlit("custom");
    reveal_strlit("export");
    reveal_strlit("events%5Bexportevents%5D");
    reveal_strlit("period%5Btimeperiod%5D");
    reveal_strlit(
        "_qf__core_calendar_export_form=1&events%5Bexportevents%5D=all&period%5Btimeperiod%5D=custom&export=1",
    );
    assert("_qf__core_calendar_export_form=1&events%5Bexportevents%5D=all&period%5Btimeperiod%5D=custom&export=1"@
        =~= p0 + amp + (p1 + amp + (p2 + amp + p3)));
}

/// The error when the export answered with something other than a
/// calendar.
pub open spec fn not_ical_error(content_type: Seq<char>) -> Seq<char> {
    "calendar export did not return iCal (content-type "@ + content_type + ")"@
}

/// The to-do items of the export's answer, which must be a calendar
/// (hold `BEGIN:VCALENDAR`); `content_type` is quoted in the error.
pub fn items_from_export(content_type: &str, body: &str) -> (r: Result<Vec<TodoItem>, String>)
    ensures
        r is Ok <==> contains_seq(body@, "BEGIN:VCALENDAR"@),
        r matches Ok(items) ==> item_views(items@) == calendar_items(body@),
        r matches Err(e) ==> e@ == not_ical_error(content_type@),
{
    let b = chars_of(body);
    if !contains_str(&b, "BEGIN:VCALENDAR") {
        let mut e = owned("calendar export did not return iCal (content-type ");
        push_str(&mut e, content_type);
        push_str(&mut e, ")");
        return Err(e);
    }
    Ok(parse_ics(body))
}

/// How a refresh goes on after the AJAX read.
pub enum FetchProgress {
    /// The AJAX items are the answer.
    Finished(FetchResult),
    /// Read the calendar export; the AJAX error, if the read failed.
    FallBack(Option<String>),
}

/// After the AJAX read: a non-empty list is the answer; an empty list or a
/// failure falls back to the calendar export.
pub fn after_ajax(ajax: Result<Vec<TodoItem>, String>) -> (r: FetchProgress)
    ensures
        match ajax {
            Ok(items) => if items.len() > 0 {
                r matches FetchProgress::Finished(f) && f.source == TodoSourceKind::Ajax && f.items
                    == items
            } else {
                r matches FetchProgress::FallBack(None)
            },
            Err(e) => r matches FetchProgress::FallBack(Some(e2)) && e2 == e,
        },
{
    match ajax {
        Ok(items) => if items.len() > 0 {
            FetchProgress::Finished(FetchResult { source: TodoSourceKind::Ajax, items })
        } else {
            FetchProgress::FallBack(None)
        },
        Err(e) => FetchProgress::FallBack(Some(e)),
    }
}

/// The error when both reads failed.
pub open spec fn both_failed_error(ajax: Seq<char>, ical: Seq<char>) -> Seq<char> {
    "ajax: "@ + ajax + "; ical: "@ + ical
}

/// After the fallback read: its items are the answer, even when empty; when
/// it fails too, the error names both failures (or only its own when the
/// AJAX read had merely come back empty).
pub fn after_ical(ajax_error: Option<String>, ical: Result<Vec<TodoItem>, String>) -> (r: Result<
    FetchResult,
    String,
>)
    ensures
        match ical {
            Ok(items) => r matches Ok(f) && f.source == TodoSourceKind::Ical && f.items == items,
            Err(ie) => r matches Err(e) && e@ == match ajax_error {
                Some(ae) => both_failed_error(ae@, ie@),
                None => ie@,
            },
        },
{
    match ical {
        Ok(items) => Ok(FetchResult { source: TodoSourceKind::Ical, items }),
        Err(ie) => match ajax_error {
            Some(ae) => {
                let mut e = owned("ajax: ");
                push_str(&mut e, ae.as_str());
                push_str(&mut e, "; ical: ");
                push_str(&mut e, ie.as_str());
                Err(e)
            },
            None => Err(ie),
        },
    }
}

} // verus!
