//! The Moodle session that the login window harvests, and the rules of
//! the login flow.
use vstd::prelude::*;
use crate::text::{chars_eq_str, chars_of, join, lemma_join_push, owned, push_str};

verus! {

/// One cookie of the Moodle origin, as the login webview reported it.
#[derive(Debug, Clone)]
pub struct StoredCookie {
    pub name: String,
    pub value: String,
    pub domain: Option<String>,
    pub path: Option<String>,
    pub secure: bool,
    pub http_only: bool,
}

/// What a logged-in session needs: the page's `sesskey` and the cookies.
#[derive(Debug, Clone)]
pub struct SessionSecrets {
    pub sesskey: String,
    pub cookies: Vec<StoredCookie>,
}

/// `name=value` of one cookie.
pub open spec fn cookie_pair(c: StoredCookie) -> Seq<char> {
    c.name@ + seq!['='] + c.value@
}

/// The `Cookie` request header value: every cookie as `name=value`,
/// separated by `"; "`.
pub open spec fn cookie_header_of(cookies: Seq<StoredCookie>) -> Seq<char> {
    join(cookies.map_values(|c: StoredCookie| cookie_pair(c)), seq![';', ' '])
}

/// The `Cookie` header that replays the harvested session.
pub fn cookie_header(secrets: &SessionSecrets) -> (r: String)
    ensures
        r@ == cookie_header_of(secrets.cookies@),
{
    let cookies = &secrets.cookies;
    let ghost pairs = cookies@.map_values(|c: StoredCookie| cookie_pair(c));
    let mut out = String::new();
    let mut k: usize = 0;
    while k < cookies.len()
        invariant
            k <= cookies@.len(),
            pairs == cookies@.map_values(|c: StoredCookie| cookie_pair(c)),
            out@ == join(pairs.take(k as int), seq![';', ' ']),
        decreases cookies@.len() - k,
    {
        let ghost before = out@;
        if k > 0 {
            push_str(&mut out, "; ");
            proof {
                reveal_strlit("; ");
            }
        }
        push_str(&mut out, cookies[k].name.as_str());
        push_str(&mut out, "=");
        proof {
            reveal_strlit("=");
        }
        push_str(&mut out, cookies[k].value.as_str());
        proof {
            assert(pairs.take(k + 1) =~= pairs.take(k as int).push(pairs[k as int]));
            if k > 0 {
                lemma_join_push(pairs.take(k as int), pairs[k as int], seq![';', ' ']);
                assert(out@ =~= before + seq![';', ' '] + pairs[k as int]);
            } else {
                assert(pairs.take(1) =~= seq![pairs[0]]);
                assert(out@ =~= pairs[0]);
            }
        }
        k += 1;
    }
    assert(pairs.take(cookies@.len() as int) =~= pairs);
    out
}

/// The header of no cookies is empty, of one cookie its `name=value`;
/// one more cookie adds `; name=value` at the end.
pub proof fn lemma_cookie_header_grows(cookies: Seq<StoredCookie>, c: StoredCookie)
    ensures
        cookie_header_of(Seq::empty()) == Seq::<char>::empty(),
        cookie_header_of(seq![c]) == c.name@ + seq!['='] + c.value@,
        cookies.len() > 0 ==> cookie_header_of(cookies.push(c)) == cookie_header_of(cookies) + seq![
            ';',
            ' ',
        ] + c.name@ + seq!['='] + c.value@,
{
    let f = |x: StoredCookie| cookie_pair(x);
    assert(Seq::<StoredCookie>::empty().map_values(f) =~= Seq::<Seq<char>>::empty());
    assert(seq![c].map_values(f) =~= seq![cookie_pair(c)]);
    if cookies.len() > 0 {
        assert(cookies.push(c).map_values(f) =~= cookies.map_values(f).push(cookie_pair(c)));
        lemma_join_push(cookies.map_values(f), cookie_pair(c), seq![';', ' ']);
        assert(cookie_header_of(cookies) + seq![';', ' '] + cookie_pair(c) =~= cookie_header_of(cookies)
            + seq![';', ' '] + c.name@ + seq!['='] + c.value@);
    }
}

/// A cookie as the login webview reports it; a missing `Secure` or
/// `HttpOnly` flag is taken as set.
pub fn stored_cookie(
    name: String,
    value: String,
    domain: Option<String>,
    path: Option<String>,
    secure: Option<bool>,
    http_only: Option<bool>,
) -> (r: StoredCookie)
    ensures
        r.name == name,
        r.value == value,
        r.domain == domain,
        r.path == path,
        r.secure == match secure {
            Some(b) => b,
            None => true,
        },
        r.http_only == match http_only {
            Some(b) => b,
            None => true,
        },
{
    StoredCookie {
        name,
        value,
        domain,
        path,
        secure: match secure {
            Some(b) => b,
            None => true,
        },
        http_only: match http_only {
            Some(b) => b,
            None => true,
        },
    }
}

/// Some cookie is the `MoodleSession` cookie.
pub open spec fn has_session_cookie(cookies: Seq<StoredCookie>) -> bool {
    exists|i: int| 0 <= i < cookies.len() && cookies[i].name@ == "MoodleSession"@
}

/// Whether the harvested cookies include `MoodleSession`.
pub fn has_moodle_session(cookies: &Vec<StoredCookie>) -> (r: bool)
    ensures
        r == has_session_cookie(cookies@),
{
    let mut k: usize = 0;
    while k < cookies.len()
        invariant
            k <= cookies@.len(),
            forall|i: int| 0 <= i < k ==> cookies@[i].name@ != "MoodleSession"@,
        decreases cookies@.len() - k,
    {
        let name = chars_of(cookies[k].name.as_str());
        if chars_eq_str(&name, "MoodleSession") {
            return true;
        }
        k += 1;
    }
    false
}

/// The parts of a URL that the login flow looks at.
#[derive(Debug, Clone)]
pub struct LoginUrl {
    pub scheme: String,
    pub host: Option<String>,
    pub path: String,
}

/// The login window may follow the HTTPS single-sign-on chain wherever it
/// leads: only `https`, `http` and `about` URLs are allowed.
pub open spec fn login_navigation_allowed(url: LoginUrl) -> bool {
    url.scheme@ == "https"@ || url.scheme@ == "http"@ || url.scheme@ == "about"@
}

/// Whether the login window may navigate to `url`.
pub fn allow_login_navigation(url: &LoginUrl) -> (r: bool)
    ensures
        r == login_navigation_allowed(*url),
{
    let s = chars_of(url.scheme.as_str());
    chars_eq_str(&s, "https") || chars_eq_str(&s, "http") || chars_eq_str(&s, "about")
}

/// A page of the Moodle origin other than the login pages: the sign-in
/// has finished.
pub open spec fn is_post_login_page(url: LoginUrl) -> bool {
    &&& url.host matches Some(h) && h@ == "moodle.hku.hk"@
    &&& !(url.path@.len() >= 6 && url.path@.subrange(0, 6) == "/login"@)
}

/// Whether `url` is a Moodle page reached after signing in.
pub fn is_post_login_moodle(url: &LoginUrl) -> (r: bool)
    ensures
        r == is_post_login_page(*url),
{
    let host_ok = match &url.host {
        Some(h) => {
            let hc = chars_of(h.as_str());
            chars_eq_str(&hc, "moodle.hku.hk")
        },
        None => false,
    };
    if !host_ok {
        return false;
    }
    let p = chars_of(url.path.as_str());
    let prefix = chars_of("/login");
    proof {
        reveal_strlit("/login");
    }
    if p.len() < 6 {
        return true;
    }
    let head = crate::text::sub_vec(&p, 0, 6);
    !crate::text::chars_eq(&head, &prefix)
}


/// The string that a JSON text denotes, when the text is a JSON string
/// (as `serde_json::from_str::<String>` reads it).
pub uninterp spec fn json_string(raw: Seq<char>) -> Option<Seq<char>>;

/// `serde_json::from_str::<String>`: the string that the JSON text `raw`
/// denotes, or nothing when `raw` is not a JSON string. The decoding is
/// left to `serde_json` and named by `json_string`.
#[verifier::external_body]
fn parse_json_string(raw: &str) -> (r: Option<String>)
    ensures
        match r {
            Some(s) => json_string(raw@) == Some(s@),
            None => json_string(raw@) is None,
        },
{
    serde_json::from_str::<String>(raw).ok()
}

/// The error when the login page has not set `MoodleSession` yet.
pub open spec fn missing_session_error() -> Seq<char> {
    "MoodleSession cookie not present yet"@
}

/// The error when the login page gave no `sesskey`.
pub open spec fn empty_sesskey_error() -> Seq<char> {
    "M.cfg.sesskey was empty"@
}

/// Fails unless the harvested cookies include `MoodleSession`.
pub fn check_session_cookies(cookies: &Vec<StoredCookie>) -> (r: Result<(), String>)
    ensures
        r is Ok <==> has_session_cookie(cookies@),
        r matches Err(e) ==> e@ == missing_session_error(),
{
    if has_moodle_session(cookies) {
        Ok(())
    } else {
        Err(owned("MoodleSession cookie not present yet"))
    }
}

/// The `sesskey` from the JSON value that evaluating `M.cfg.sesskey` in
/// the login page returned; text that is not a JSON string counts as empty.
pub open spec fn sesskey_of(raw: Seq<char>) -> Seq<char> {
    match json_string(raw) {
        Some(s) => s,
        None => Seq::empty(),
    }
}

/// The session from the harvested cookies and the decoded `sesskey` (none
/// when the page's answer was not a JSON string); a missing or empty
/// `sesskey` is an error.
pub fn session_with_sesskey(cookies: Vec<StoredCookie>, sesskey: Option<String>) -> (r: Result<
    SessionSecrets,
    String,
>)
    ensures
        r is Ok <==> (sesskey matches Some(k) && k@.len() > 0),
        r matches Ok(s) ==> sesskey == Some(s.sesskey) && s.cookies@ == cookies@,
        r matches Err(e) ==> e@ == empty_sesskey_error(),
{
    match sesskey {
        Some(key) => if key.as_str().is_empty() {
            Err(owned("M.cfg.sesskey was empty"))
        } else {
            Ok(SessionSecrets { sesskey: key, cookies })
        },
        None => Err(owned("M.cfg.sesskey was empty")),
    }
}

/// The session from the harvested cookies and the page's `sesskey`
/// (the JSON result of evaluating `M.cfg.sesskey`); an empty `sesskey` is
/// an error.
pub fn session_from_harvest(cookies: Vec<StoredCookie>, raw_sesskey: &str) -> (r: Result<
    SessionSecrets,
    String,
>)
    ensures
        r is Ok <==> sesskey_of(raw_sesskey@).len() > 0,
        r matches Ok(s) ==> s.sesskey@ == sesskey_of(raw_sesskey@) && s.cookies@ == cookies@,
        r matches Err(e) ==> e@ == empty_sesskey_error(),
{
    session_with_sesskey(cookies, parse_json_string(raw_sesskey))
}

/// The error when the harvested session does not open `/my/`.
pub open spec fn rejected_session_error() -> Seq<char> {
    "Moodle session cookie was rejected by /my/"@
}

/// A harvested session is kept only when it opens `/my/` (`alive`).
pub fn check_session_alive(alive: bool) -> (r: Result<(), String>)
    ensures
        r is Ok <==> alive,
        r matches Err(e) ==> e@ == rejected_session_error(),
{
    if alive {
        Ok(())
    } else {
        Err(owned("Moodle session cookie was rejected by /my/"))
    }
}

/// Lets one session harvest run at a time: every finished page load of
/// the login window asks for one, and only the first is let through
/// until it fails or a new login starts. Its view is whether a harvest
/// holds the latch.
pub struct HarvestLatch {
    held: bool,
}

impl View for HarvestLatch {
    type V = bool;

    closed spec fn view(&self) -> bool {
        self.held
    }
}

impl HarvestLatch {
    /// A latch that no harvest holds.
    pub fn new() -> (r: Self)
        ensures
            !r@,
    {
        HarvestLatch { held: false }
    }

    /// A new login starts: any earlier harvest no longer holds the latch.
    pub fn reopen(&mut self)
        ensures
            !final(self)@,
    {
        self.held = false;
    }

    /// A harvest asks to run: it may exactly when none holds the latch, and
    /// afterwards one does.
    pub fn begin(&mut self) -> (r: bool)
        ensures
            r == !old(self)@,
            final(self)@,
    {
        let free = !self.held;
        self.held = true;
        free
    }

    /// The harvest that ran has ended: a failed one lets the next page load
    /// try again; a successful one keeps the latch, so no second harvest
    /// follows it.
    pub fn finish(&mut self, succeeded: bool)
        ensures
            final(self)@ == (succeeded && old(self)@),
    {
        if !succeeded {
            self.held = false;
        }
    }
}

} // verus!
