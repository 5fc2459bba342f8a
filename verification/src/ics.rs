//! The iCalendar export of the Moodle calendar.
use vstd::prelude::*;
use crate::todo::{TodoItem, TodoItemView, TodoKind, item_views};
use crate::time::{ics_datetime_iso, ics_datetime_to_iso};
use crate::text::{
    before_first, before_first_exec, decimal, matches_at, signed_decimal, contains_seq, contains_str, lower, lower_exec, replace,
    replace_exec, split, split_exec, chars_of, eq_ignore_ascii_case, find_from, find_from_exec, lemma_find_from,
    join, lemma_join_push, lemma_replace_absent, lemma_replace_first, lines, lines_exec, push_all, push_char, push_range, range_eq_ignore_ascii_case, sub_vec, trim,
    trim_range, views,
};

verus! {

/// Where an item from the calendar export sends the student when its event
/// carries no link of its own (Moodle's export has no `URL` properties).
pub const FALLBACK_URL: &'static str = "https://moodle.hku.hk/calendar/view.php?view=upcoming";

/// [`FALLBACK_URL`] as an owned `String`.
pub fn fallback_string() -> (r: String)
    ensures
        r@ == FALLBACK_URL@,
{
    let mut s = String::new();
    crate::text::push_str(&mut s, FALLBACK_URL);
    assert(s@ =~= FALLBACK_URL@);
    s
}


/// A folded continuation line: it starts with a space or a tab.
pub open spec fn is_continuation(l: Seq<char>) -> bool {
    l.len() > 0 && (l[0] == ' ' || l[0] == '\t')
}

/// Lines joined back together: a continuation line loses its first
/// character and is appended to what precedes it; any other line starts a
/// new line (after a `\n`, unless nothing precedes it).
pub open spec fn unfold_lines(ls: Seq<Seq<char>>) -> Seq<char>
    decreases ls.len(),
{
    if ls.len() == 0 {
        Seq::empty()
    } else {
        let prev = unfold_lines(ls.drop_last());
        let l = ls.last();
        if is_continuation(l) {
            prev + l.drop_first()
        } else if prev.len() == 0 {
            l
        } else {
            prev + seq!['\n'] + l
        }
    }
}

/// RFC 5545 line unfolding of `text`.
pub open spec fn unfold(text: Seq<char>) -> Seq<char> {
    unfold_lines(lines(text))
}

/// Lines that are not folded, none of them empty, are kept as they are,
/// one per line.
pub proof fn lemma_unfold_plain(ls: Seq<Seq<char>>)
    requires
        forall|i: int| 0 <= i < ls.len() ==> !is_continuation(#[trigger] ls[i]) && ls[i].len() > 0,
    ensures
        unfold_lines(ls) == join(ls, seq!['\n']),
        ls.len() > 0 ==> unfold_lines(ls).len() > 0,
    decreases ls.len(),
{
    if ls.len() > 0 {
        let prev = ls.drop_last();
        assert forall|i: int| 0 <= i < prev.len() implies !is_continuation(#[trigger] prev[i])
            && prev[i].len() > 0 by {
            assert(prev[i] == ls[i]);
        }
        lemma_unfold_plain(prev);
        assert(!is_continuation(ls[ls.len() - 1]));
        if prev.len() > 0 {
            lemma_join_push(prev, ls.last(), seq!['\n']);
            assert(prev.push(ls.last()) =~= ls);
        } else {
            assert(ls =~= seq![ls[0]]);
        }
    }
}

/// A folded line (a space or a tab, then `x`) continues the line before
/// it: unfolding reads the two as that line followed by `x`, whatever
/// comes before.
pub proof fn lemma_unfold_continuation(ls: Seq<Seq<char>>, line: Seq<char>, fold: char, x: Seq<char>)
    requires
        !is_continuation(line),
        line.len() > 0,
        fold == ' ' || fold == '\t',
    ensures
        unfold_lines(ls.push(line).push(seq![fold] + x)) == unfold_lines(ls.push(line + x)),
{
    let f = seq![fold] + x;
    assert(ls.push(line).push(f).drop_last() =~= ls.push(line));
    assert(ls.push(line).drop_last() =~= ls);
    assert(ls.push(line + x).drop_last() =~= ls);
    assert(f.drop_first() =~= x);
    assert(is_continuation(f));
    let prev = unfold_lines(ls);
    if prev.len() == 0 {
        assert(unfold_lines(ls.push(line)) == line);
    } else {
        assert(unfold_lines(ls.push(line)) == prev + seq!['\n'] + line);
        assert(prev + seq!['\n'] + line + x =~= prev + seq!['\n'] + (line + x));
    }
}

/// Undoes iCalendar line folding: a line that starts with a space or a tab
/// continues the line before it. Lines are rejoined with `\n`.
pub fn unfold_ics(text: &str) -> (r: String)
    ensures
        r@ == unfold(text@),
{
    let chars = chars_of(text);
    let ls = lines_exec(&chars);
    let mut out = String::new();
    let mut k: usize = 0;
    while k < ls.len()
        invariant
            k <= ls@.len(),
            views(ls@) == lines(text@),
            out@ == unfold_lines(views(ls@).take(k as int)),
        decreases ls@.len() - k,
    {
        let line = &ls[k];
        let ghost prev = out@;
        proof {
            assert(views(ls@).take(k + 1).drop_last() =~= views(ls@).take(k as int));
            assert(views(ls@).take(k + 1).last() == line@);
        }
        if line.len() > 0 && (line[0] == ' ' || line[0] == '\t') {
            push_range(&mut out, line, 1, line.len());
            assert(line@.subrange(1, line@.len() as int) =~= line@.drop_first());
        } else {
            if !out.as_str().is_empty() {
                push_char(&mut out, '\n');
            }
            push_all(&mut out, line);
        }
        k += 1;
        assert(out@ =~= unfold_lines(views(ls@).take(k as int)));
    }
    assert(views(ls@).take(ls@.len() as int) =~= views(ls@));
    out
}

/// The value of property `name` on one content line: the line has a `:`,
/// the text before it up to any `;` (the parameters) names the property
/// in any ASCII case, and the value is the trimmed text after the `:`.
pub open spec fn line_property(line: Seq<char>, name: Seq<char>) -> Option<Seq<char>> {
    let i = find_from(line, seq![':'], 0);
    if i < 0 {
        None
    } else {
        let head = line.subrange(0, i);
        if eq_ignore_ascii_case(before_first(head, seq![';']), name) {
            Some(trim(line.subrange(i + 1, line.len() as int)))
        } else {
            None
        }
    }
}

/// The value of the first of `ls` that carries property `name`.
pub open spec fn lines_property(ls: Seq<Seq<char>>, name: Seq<char>) -> Option<Seq<char>>
    decreases ls.len(),
{
    if ls.len() == 0 {
        None
    } else {
        match line_property(ls[0], name) {
            Some(v) => Some(v),
            None => lines_property(ls.drop_first(), name),
        }
    }
}

/// The value of the first property `name` in `block`.
pub open spec fn property(block: Seq<char>, name: Seq<char>) -> Option<Seq<char>> {
    lines_property(lines(block), name)
}

/// `s` holds no `c`.
pub open spec fn lacks(s: Seq<char>, c: char) -> bool {
    forall|i: int| 0 <= i < s.len() ==> s[i] != c
}

proof fn lemma_first_char_at(s: Seq<char>, c: char, k: int)
    requires
        0 <= k < s.len(),
        s[k] == c,
        forall|j: int| 0 <= j < k ==> s[j] != c,
    ensures
        find_from(s, seq![c], 0) == k,
{
    assert(matches_at(s, seq![c], k)) by {
        assert(s.subrange(k, k + 1) =~= seq![c]);
    }
    assert forall|j: int| 0 <= j < k implies !matches_at(s, seq![c], j) by {
        if matches_at(s, seq![c], j) {
            assert(s.subrange(j, j + 1)[0] == s[j]);
        }
    }
    lemma_find_from(s, seq![c], 0);
}

proof fn lemma_char_absent(s: Seq<char>, c: char)
    requires
        lacks(s, c),
    ensures
        find_from(s, seq![c], 0) < 0,
{
    assert forall|j: int| 0 <= j implies !matches_at(s, seq![c], j) by {
        if matches_at(s, seq![c], j) {
            assert(s.subrange(j, j + 1)[0] == s[j]);
        }
    }
    lemma_find_from(s, seq![c], 0);
}

/// A content line `NAME;PARAMS:VALUE` (the parameters may be absent)
/// carries property `name` exactly when `NAME` equals it in any ASCII
/// case, and then its value is `VALUE` without surrounding white space.
pub proof fn lemma_line_property(
    pname: Seq<char>,
    params: Seq<char>,
    value: Seq<char>,
    name: Seq<char>,
)
    requires
        lacks(pname, ':'),
        lacks(pname, ';'),
        lacks(params, ':'),
        params.len() > 0 ==> params[0] == ';',
    ensures
        line_property(pname + params + seq![':'] + value, name) == if lower(pname) == lower(name) {
            Some(trim(value))
        } else {
            None
        },
{
    let line = pname + params + seq![':'] + value;
    let head = pname + params;
    let k = head.len() as int;
    assert forall|j: int| 0 <= j < k implies line[j] != ':' by {
        if j < pname.len() {
            assert(line[j] == pname[j]);
        } else {
            assert(line[j] == params[j - pname.len()]);
        }
    }
    lemma_first_char_at(line, ':', k);
    assert(line.subrange(0, k) =~= head);
    assert(line.subrange(k + 1, line.len() as int) =~= value);
    if params.len() > 0 {
        assert forall|j: int| 0 <= j < pname.len() implies head[j] != ';' by {
            assert(head[j] == pname[j]);
        }
        lemma_first_char_at(head, ';', pname.len() as int);
        assert(head.subrange(0, pname.len() as int) =~= pname);
    } else {
        assert(head =~= pname);
        lemma_char_absent(head, ';');
    }
}

/// A block's property is taken from the first line that carries it.
pub proof fn lemma_lines_property_first(ls: Seq<Seq<char>>, name: Seq<char>, i: int)
    requires
        0 <= i < ls.len(),
        line_property(ls[i], name) is Some,
        forall|j: int| 0 <= j < i ==> line_property(#[trigger] ls[j], name) is None,
    ensures
        lines_property(ls, name) == line_property(ls[i], name),
    decreases i,
{
    if i > 0 {
        let rest = ls.drop_first();
        assert forall|j: int| 0 <= j < i - 1 implies line_property(#[trigger] rest[j], name) is None by {
            assert(rest[j] == ls[j + 1]);
        }
        assert(line_property(ls[0], name) is None);
        lemma_lines_property_first(rest, name, i - 1);
    }
}

/// A block without a line that carries the property has none.
pub proof fn lemma_lines_property_none(ls: Seq<Seq<char>>, name: Seq<char>)
    requires
        forall|j: int| 0 <= j < ls.len() ==> line_property(#[trigger] ls[j], name) is None,
    ensures
        lines_property(ls, name) is None,
    decreases ls.len(),
{
    if ls.len() > 0 {
        let rest = ls.drop_first();
        assert forall|j: int| 0 <= j < rest.len() implies line_property(#[trigger] rest[j], name) is None by {
            assert(rest[j] == ls[j + 1]);
        }
        assert(line_property(ls[0], name) is None);
        lemma_lines_property_none(rest, name);
    }
}

fn line_property_exec(line: &Vec<char>, name: &Vec<char>) -> (r: Option<String>)
    ensures
        match r {
            Some(v) => line_property(line@, name@) == Some(v@),
            None => line_property(line@, name@) is None,
        },
{
    let colon: Vec<char> = vec![':'];
    let semi: Vec<char> = vec![';'];
    assert(colon@ =~= seq![':']);
    assert(semi@ =~= seq![';']);
    proof {
        lemma_find_from(line@, colon@, 0);
    }
    match find_from_exec(line, &colon, 0) {
        None => None,
        Some(i) => {
            let head = sub_vec(line, 0, i);
            let prop = crate::text::before_first_exec(&head, &semi);
            if range_eq_ignore_ascii_case(&prop, 0, prop.len(), name) {
                assert(prop@.subrange(0, prop@.len() as int) =~= prop@);
                let llen = line.len();
                assert(i + 1 <= llen);
                let (a, b) = trim_range(line, i + 1, llen);
                let mut v = String::new();
                push_range(&mut v, line, a, b);
                assert(v@ =~= trim(line@.subrange(i + 1, line@.len() as int)));
                Some(v)
            } else {
                assert(prop@.subrange(0, prop@.len() as int) =~= prop@);
                None
            }
        },
    }
}

/// The value of the first property `name` in `block`.
pub fn property_exec(block: &Vec<char>, name: &Vec<char>) -> (r: Option<String>)
    ensures
        match r {
            Some(v) => property(block@, name@) == Some(v@),
            None => property(block@, name@) is None,
        },
{
    let ls = lines_exec(block);
    let mut k: usize = 0;
    assert(views(ls@).skip(0) =~= views(ls@));
    while k < ls.len()
        invariant
            k <= ls@.len(),
            views(ls@) == lines(block@),
            property(block@, name@) == lines_property(views(ls@).skip(k as int), name@),
        decreases ls@.len() - k,
    {
        let ghost rest = views(ls@).skip(k as int);
        assert(rest[0] == ls@[k as int]@);
        assert(rest.drop_first() =~= views(ls@).skip(k + 1));
        match line_property_exec(&ls[k], name) {
            Some(v) => {
                return Some(v);
            },
            None => {},
        }
        k += 1;
    }
    assert(views(ls@).skip(k as int) =~= Seq::<Seq<char>>::empty());
    None
}

/// The trimmed value of the first content line of `block` whose property
/// name (before any `;` parameters) equals `name` ignoring ASCII case.
pub fn ics_prop(block: &str, name: &str) -> (r: Option<String>)
    ensures
        match r {
            Some(v) => property(block@, name@) == Some(v@),
            None => property(block@, name@) is None,
        },
{
    let b = chars_of(block);
    let n = chars_of(name);
    property_exec(&b, &n)
}


/// iCalendar TEXT unescaping, as four successive replacements:
/// `\n` by a newline, `\,` by `,`, `\;` by `;`, and `\\` by `\`.
pub open spec fn unescape(v: Seq<char>) -> Seq<char> {
    replace(
        replace(
            replace(replace(v, seq!['\\', 'n'], seq!['\n']), seq!['\\', ','], seq![',']),
            seq!['\\', ';'],
            seq![';'],
        ),
        seq!['\\', '\\'],
        seq!['\\'],
    )
}

/// `s` holds no backslash.
pub open spec fn no_backslash(s: Seq<char>) -> bool {
    forall|i: int| 0 <= i < s.len() ==> s[i] != '\\'
}

/// In `a`, a backslash and `e`, then `b`, the two-character escape `pat`
/// does not occur, when it is not that backslash and `e`, and does not
/// run from a backslash `e` into `b`.
proof fn lemma_escape_absent(a: Seq<char>, b: Seq<char>, e: char, pat: Seq<char>)
    requires
        no_backslash(a),
        no_backslash(b),
        pat.len() == 2,
        pat[0] == '\\',
        pat[1] != e,
        e == '\\' ==> !(b.len() > 0 && b[0] == pat[1]),
    ensures
        !contains_seq(a + seq!['\\', e] + b, pat),
{
    let s = a + seq!['\\', e] + b;
    assert forall|i: int| !matches_at(s, pat, i) by {
        if matches_at(s, pat, i) {
            let w = s.subrange(i, i + 2);
            assert(w[0] == s[i] && w[1] == s[i + 1]);
            if i < a.len() {
                assert(s[i] == a[i]);
            } else if i == a.len() {
            } else if i == a.len() + 1 {
                if e == '\\' {
                    assert(s[i + 1] == b[0]);
                } else {
                    assert(s[i] == e);
                }
            } else {
                assert(s[i] == b[i - a.len() - 2]);
            }
        }
    }
}

/// No escape starts inside a text without backslashes.
proof fn lemma_escape_not_before(a: Seq<char>, rest: Seq<char>, pat: Seq<char>)
    requires
        no_backslash(a),
        pat.len() == 2,
        pat[0] == '\\',
    ensures
        forall|j: int| 0 <= j < a.len() ==> !matches_at(a + rest, pat, j),
{
    assert forall|j: int| 0 <= j < a.len() implies !matches_at(a + rest, pat, j) by {
        if matches_at(a + rest, pat, j) {
            assert((a + rest).subrange(j, j + 2)[0] == (a + rest)[j]);
            assert((a + rest)[j] == a[j]);
        }
    }
}

proof fn lemma_no_backslash_absent(s: Seq<char>, pat: Seq<char>)
    requires
        no_backslash(s),
        pat.len() == 2,
        pat[0] == '\\',
    ensures
        !contains_seq(s, pat),
{
    assert forall|i: int| !matches_at(s, pat, i) by {
        if matches_at(s, pat, i) {
            assert(s.subrange(i, i + 2)[0] == s[i]);
        }
    }
}

/// Text without backslashes is unescaped as it is.
pub proof fn lemma_unescape_plain(s: Seq<char>)
    requires
        no_backslash(s),
    ensures
        unescape(s) == s,
{
    lemma_no_backslash_absent(s, seq!['\\', 'n']);
    lemma_replace_absent(s, seq!['\\', 'n'], seq!['\n']);
    lemma_no_backslash_absent(s, seq!['\\', ',']);
    lemma_replace_absent(s, seq!['\\', ','], seq![',']);
    lemma_no_backslash_absent(s, seq!['\\', ';']);
    lemma_replace_absent(s, seq!['\\', ';'], seq![';']);
    lemma_no_backslash_absent(s, seq!['\\', '\\']);
    lemma_replace_absent(s, seq!['\\', '\\'], seq!['\\']);
}

/// An escape between plain text stands for its character: `\n` for a
/// newline, `\,` for a comma, `\;` for a semicolon and `\\` for a
/// backslash. (Of a `\\` followed by `n`, `,` or `;`, the second
/// backslash and that character are an escape of their own, as the
/// replacements run in turn.)
pub proof fn lemma_unescape_escape(a: Seq<char>, b: Seq<char>, e: char)
    requires
        no_backslash(a),
        no_backslash(b),
        e == 'n' || e == ',' || e == ';' || (e == '\\' && !(b.len() > 0 && (b[0] == 'n' || b[0]
            == ',' || b[0] == ';'))),
    ensures
        unescape(a + seq!['\\', e] + b) == a + seq![if e == 'n' { '\n' } else { e }] + b,
{
    let s = a + seq!['\\', e] + b;
    let pn = seq!['\\', 'n'];
    let pc = seq!['\\', ','];
    let ps = seq!['\\', ';'];
    let pb = seq!['\\', '\\'];
    let c = if e == 'n' { '\n' } else { e };
    let t = a + seq![c] + b;
    assert(s =~= a + seq!['\\', e] + b);
    lemma_replace_absent(b, pn, seq!['\n']);
    if e != '\\' {
        assert(no_backslash(t)) by {
            assert forall|i: int| 0 <= i < t.len() implies t[i] != '\\' by {
                if i < a.len() {
                    assert(t[i] == a[i]);
                } else if i > a.len() {
                    assert(t[i] == b[i - a.len() - 1]);
                }
            }
        }
    }
    if e == 'n' {
        lemma_escape_not_before(a, seq!['\\', e] + b, pn);
        assert(a + seq!['\\', e] + b =~= a + pn + b);
        assert(a + (seq!['\\', e] + b) =~= a + pn + b);
        lemma_no_backslash_absent(b, pn);
        lemma_replace_first(a, b, pn, seq!['\n']);
        assert(a + seq!['\n'] + b =~= t);
        assert(replace(s, pn, seq!['\n']) == t);
        lemma_no_backslash_absent(t, pc);
        lemma_replace_absent(t, pc, seq![',']);
        lemma_no_backslash_absent(t, ps);
        lemma_replace_absent(t, ps, seq![';']);
        lemma_no_backslash_absent(t, pb);
        lemma_replace_absent(t, pb, seq!['\\']);
    } else if e == ',' {
        lemma_escape_absent(a, b, e, pn);
        lemma_replace_absent(s, pn, seq!['\n']);
        lemma_escape_not_before(a, seq!['\\', e] + b, pc);
        assert(a + (seq!['\\', e] + b) =~= a + pc + b);
        lemma_no_backslash_absent(b, pc);
        lemma_replace_absent(b, pc, seq![',']);
        lemma_replace_first(a, b, pc, seq![',']);
        assert(a + seq![','] + b =~= t);
        lemma_no_backslash_absent(t, ps);
        lemma_replace_absent(t, ps, seq![';']);
        lemma_no_backslash_absent(t, pb);
        lemma_replace_absent(t, pb, seq!['\\']);
    } else if e == ';' {
        lemma_escape_absent(a, b, e, pn);
        lemma_replace_absent(s, pn, seq!['\n']);
        lemma_escape_absent(a, b, e, pc);
        lemma_replace_absent(s, pc, seq![',']);
        lemma_escape_not_before(a, seq!['\\', e] + b, ps);
        assert(a + (seq!['\\', e] + b) =~= a + ps + b);
        lemma_no_backslash_absent(b, ps);
        lemma_replace_absent(b, ps, seq![';']);
        lemma_replace_first(a, b, ps, seq![';']);
        assert(a + seq![';'] + b =~= t);
        lemma_no_backslash_absent(t, pb);
        lemma_replace_absent(t, pb, seq!['\\']);
    } else {
        lemma_escape_absent(a, b, e, pn);
        lemma_replace_absent(s, pn, seq!['\n']);
        lemma_escape_absent(a, b, e, pc);
        lemma_replace_absent(s, pc, seq![',']);
        lemma_escape_absent(a, b, e, ps);
        lemma_replace_absent(s, ps, seq![';']);
        lemma_escape_not_before(a, seq!['\\', e] + b, pb);
        assert(a + (seq!['\\', e] + b) =~= a + pb + b);
        lemma_no_backslash_absent(b, pb);
        lemma_replace_absent(b, pb, seq!['\\']);
        lemma_replace_first(a, b, pb, seq!['\\']);
        assert(a + seq!['\\'] + b =~= t);
    }
}

fn replace_step(v: &Vec<char>, from: &Vec<char>, to: &Vec<char>) -> (r: Vec<char>)
    requires
        from@.len() > 0,
    ensures
        r@ == replace(v@, from@, to@),
{
    let s = replace_exec(v, from, to);
    chars_of(s.as_str())
}

fn unescape_chars(v: &Vec<char>) -> (r: String)
    ensures
        r@ == unescape(v@),
{
    let p1: Vec<char> = vec!['\\', 'n'];
    let t1: Vec<char> = vec!['\n'];
    let p2: Vec<char> = vec!['\\', ','];
    let t2: Vec<char> = vec![','];
    let p3: Vec<char> = vec!['\\', ';'];
    let t3: Vec<char> = vec![';'];
    let p4: Vec<char> = vec!['\\', '\\'];
    let t4: Vec<char> = vec!['\\'];
    assert(p1@ =~= seq!['\\', 'n'] && t1@ =~= seq!['\n']);
    assert(p2@ =~= seq!['\\', ','] && t2@ =~= seq![',']);
    assert(p3@ =~= seq!['\\', ';'] && t3@ =~= seq![';']);
    assert(p4@ =~= seq!['\\', '\\'] && t4@ =~= seq!['\\']);
    let a = replace_step(v, &p1, &t1);
    let b = replace_step(&a, &p2, &t2);
    let c = replace_step(&b, &p3, &t3);
    replace_exec(&c, &p4, &t4)
}

/// Undoes iCalendar TEXT escaping (`\n`, `\,`, `\;`, `\\`).
pub fn unescape_ics(value: &str) -> (r: String)
    ensures
        r@ == unescape(value@),
{
    let v = chars_of(value);
    unescape_chars(&v)
}

/// The kind of a calendar entry, guessed from its summary and description:
/// the first keyword group that occurs in either, ignoring ASCII case.
pub open spec fn ical_text_kind(summary: Seq<char>, description: Seq<char>) -> TodoKind {
    let h = lower(summary + seq![' '] + description);
    if contains_seq(h, "turnitin"@) {
        TodoKind::Turnitin
    } else if contains_seq(h, "quiz"@) || contains_seq(h, "test"@) || contains_seq(h, "exam"@) {
        TodoKind::Assessment
    } else if contains_seq(h, "enrol"@) || contains_seq(h, "registration"@) {
        TodoKind::Registration
    } else if contains_seq(h, "assign"@) || contains_seq(h, "submission"@) || contains_seq(
        h,
        "due"@,
    ) {
        TodoKind::Assignment
    } else {
        TodoKind::Other
    }
}

fn ical_text_kind_exec(summary: &Vec<char>, description: &Vec<char>) -> (r: TodoKind)
    ensures
        r == ical_text_kind(summary@, description@),
{
    let mut joined: Vec<char> = Vec::new();
    let mut i: usize = 0;
    while i < summary.len()
        invariant
            i <= summary@.len(),
            joined@ == summary@.take(i as int),
        decreases summary@.len() - i,
    {
        joined.push(summary[i]);
        i += 1;
        assert(joined@ =~= summary@.take(i as int));
    }
    joined.push(' ');
    let mut j: usize = 0;
    while j < description.len()
        invariant
            j <= description@.len(),
            joined@ == summary@ + seq![' '] + description@.take(j as int),
        decreases description@.len() - j,
    {
        joined.push(description[j]);
        j += 1;
        assert(joined@ =~= summary@ + seq![' '] + description@.take(j as int));
    }
    assert(summary@.take(summary@.len() as int) =~= summary@);
    assert(description@.take(description@.len() as int) =~= description@);
    let h = lower_exec(&joined);
    if contains_str(&h, "turnitin") {
        TodoKind::Turnitin
    } else if contains_str(&h, "quiz") || contains_str(&h, "test") || contains_str(&h, "exam") {
        TodoKind::Assessment
    } else if contains_str(&h, "enrol") || contains_str(&h, "registration") {
        TodoKind::Registration
    } else if contains_str(&h, "assign") || contains_str(&h, "submission") || contains_str(
        &h,
        "due",
    ) {
        TodoKind::Assignment
    } else {
        TodoKind::Other
    }
}

/// Guesses the kind of a calendar entry from its summary and description.
pub fn kind_from_ical_text(summary: &str, description: &str) -> (r: TodoKind)
    ensures
        r == ical_text_kind(summary@, description@),
{
    let s = chars_of(summary);
    let d = chars_of(description);
    ical_text_kind_exec(&s, &d)
}


/// The text of the first property `name`, or nothing.
pub open spec fn property_or_empty(block: Seq<char>, name: Seq<char>) -> Seq<char> {
    match property(block, name) {
        Some(v) => v,
        None => Seq::empty(),
    }
}

/// The link of an event: its non-empty `URL` property, else [`FALLBACK_URL`].
pub open spec fn event_link(event: Seq<char>) -> Seq<char> {
    match property(event, "URL"@) {
        Some(u) => if u.len() > 0 {
            u
        } else {
            FALLBACK_URL@
        },
        None => FALLBACK_URL@,
    }
}

/// The to-do item of one `VEVENT` body, if it has a `SUMMARY` and a
/// `DTEND` or `DTSTART`: the id is the `UID` up to its `@` (the whole `UID`
/// when that part is empty), the deadline the end (else the start) as an
/// RFC 3339 timestamp when it is a date, the course the non-empty
/// `CATEGORIES`, the link the `URL` when there is one.
pub open spec fn event_item(event: Seq<char>) -> Option<TodoItemView> {
    match property(event, "SUMMARY"@) {
        None => None,
        Some(summary) => {
            let raw = match property(event, "DTEND"@) {
                Some(v) => Some(v),
                None => property(event, "DTSTART"@),
            };
            match raw {
                None => None,
                Some(raw) => {
                    let deadline = match ics_datetime_iso(raw) {
                        Some(d) => d,
                        None => raw,
                    };
                    let course = match property(event, "CATEGORIES"@) {
                        Some(c) => if c.len() > 0 {
                            Some(unescape(c))
                        } else {
                            None
                        },
                        None => None,
                    };
                    let description = property_or_empty(event, "DESCRIPTION"@);
                    let uid = property_or_empty(event, "UID"@);
                    let head = before_first(uid, seq!['@']);
                    Some(
                        TodoItemView {
                            id: if head.len() > 0 { head } else { uid },
                            title: unescape(summary),
                            course: course,
                            kind: ical_text_kind(summary, description),
                            deadline: deadline,
                            url: event_link(event),
                        },
                    )
                },
            }
        },
    }
}

/// The bodies of the `VEVENT`s of a calendar: after line unfolding, the
/// text after each `BEGIN:VEVENT` up to the next `END:VEVENT`.
pub open spec fn event_bodies(text: Seq<char>) -> Seq<Seq<char>> {
    split(unfold(text), "BEGIN:VEVENT"@).skip(1).map_values(
        |b: Seq<char>| before_first(b, "END:VEVENT"@),
    )
}

/// The items of the events that make one, in order.
pub open spec fn event_items(events: Seq<Seq<char>>) -> Seq<TodoItemView> {
    events.filter_map(|e: Seq<char>| event_item(e))
}

/// The to-do items of a calendar export, in the order of its events.
pub open spec fn calendar_items(text: Seq<char>) -> Seq<TodoItemView> {
    event_items(event_bodies(text))
}

fn property_or_empty_exec(block: &Vec<char>, name: &str) -> (r: Vec<char>)
    ensures
        r@ == property_or_empty(block@, name@),
{
    let n = chars_of(name);
    match property_exec(block, &n) {
        Some(v) => chars_of(v.as_str()),
        None => Vec::new(),
    }
}

fn property_named(block: &Vec<char>, name: &str) -> (r: Option<String>)
    ensures
        match r {
            Some(v) => property(block@, name@) == Some(v@),
            None => property(block@, name@) is None,
        },
{
    let n = chars_of(name);
    property_exec(block, &n)
}

fn event_item_exec(event: &Vec<char>) -> (r: Option<TodoItem>)
    ensures
        match r {
            Some(t) => event_item(event@) == Some(t@),
            None => event_item(event@) is None,
        },
{
    let summary = match property_named(event, "SUMMARY") {
        Some(v) => v,
        None => {
            return None;
        },
    };
    let raw = match property_named(event, "DTEND") {
        Some(v) => v,
        None => match property_named(event, "DTSTART") {
            Some(v) => v,
            None => {
                return None;
            },
        },
    };
    let deadline = match ics_datetime_to_iso(raw.as_str()) {
        Some(d) => d,
        None => raw,
    };
    let course = match property_named(event, "CATEGORIES") {
        Some(c) => {
            let cc = chars_of(c.as_str());
            if cc.len() > 0 {
                Some(unescape_chars(&cc))
            } else {
                None
            }
        },
        None => None,
    };
    let description = property_or_empty_exec(event, "DESCRIPTION");
    let uid = property_or_empty_exec(event, "UID");
    let at: Vec<char> = vec!['@'];
    assert(at@ =~= seq!['@']);
    let head = before_first_exec(&uid, &at);
    let mut id = String::new();
    if head.len() > 0 {
        push_all(&mut id, &head);
    } else {
        push_all(&mut id, &uid);
    }
    let link = match property_named(event, "URL") {
        Some(u) => if u.as_str().is_empty() {
            fallback_string()
        } else {
            u
        },
        None => fallback_string(),
    };
    let summary_chars = chars_of(summary.as_str());
    let title = unescape_chars(&summary_chars);
    let kind = ical_text_kind_exec(&summary_chars, &description);
    let item = TodoItem {
        id: id,
        title: title,
        course: course,
        kind: kind,
        deadline: deadline,
        url: link,
    };
    proof {
        assert(Seq::<char>::empty() + head@ =~= head@);
        assert(Seq::<char>::empty() + uid@ =~= uid@);
    }
    assert(event_item(event@) == Some(item@));
    Some(item)
}

/// The to-do items of an iCalendar export, one for each `VEVENT` that has
/// a `SUMMARY` and a `DTEND` or `DTSTART`, in order.
pub fn parse_ics(text: &str) -> (r: Vec<TodoItem>)
    ensures
        item_views(r@) == calendar_items(text@),
{
    let unfolded = unfold_ics(text);
    let u = chars_of(unfolded.as_str());
    let begin = chars_of("BEGIN:VEVENT");
    let end = chars_of("END:VEVENT");
    proof {
        reveal_strlit("BEGIN:VEVENT");
    }
    let blocks = split_exec(&u, &begin);
    let ghost bodies = event_bodies(text@);
    let mut items: Vec<TodoItem> = Vec::new();
    let mut k: usize = 1;
    assert(bodies.take(0) =~= Seq::<Seq<char>>::empty());
    assert(item_views(items@) =~= Seq::<TodoItemView>::empty());
    while k < blocks.len()
        invariant
            1 <= k <= blocks@.len() || blocks@.len() == 0,
            views(blocks@) == split(unfold(text@), "BEGIN:VEVENT"@),
            end@ == "END:VEVENT"@,
            bodies == event_bodies(text@),
            bodies.len() == if blocks@.len() == 0 { 0 } else { blocks@.len() - 1 },
            k >= 1 ==> item_views(items@) == event_items(bodies.take(k - 1)),
        decreases blocks@.len() - k,
    {
        let body = before_first_exec(&blocks[k], &end);
        assert(body@ == bodies[k - 1]);
        let ghost before = item_views(items@);
        match event_item_exec(&body) {
            Some(item) => {
                items.push(item);
                assert(item_views(items@) =~= before.push(item@));
            },
            None => {},
        }
        proof {
            let t = bodies.take(k as int);
            assert(t.drop_last() =~= bodies.take(k - 1));
            assert(t.last() == body@);
        }
        k += 1;
    }
    proof {
        if blocks@.len() == 0 {
            assert(bodies =~= Seq::<Seq<char>>::empty());
        } else {
            assert(bodies.take(k - 1) =~= bodies);
        }
    }
    items
}


proof fn lemma_filter_map_events_fallback(events: Seq<Seq<char>>)
    requires
        forall|i: int| 0 <= i < events.len() ==> #[trigger] event_link(events[i]) == FALLBACK_URL@,
    ensures
        forall|i: int|
            0 <= i < event_items(events).len() ==> (#[trigger] event_items(events)[i]).url
                == FALLBACK_URL@,
    decreases events.len(),
{
    if events.len() > 0 {
        let rest = events.drop_last();
        assert forall|i: int| 0 <= i < rest.len() implies #[trigger] event_link(rest[i])
            == FALLBACK_URL@ by {
            assert(rest[i] == events[i]);
        }
        lemma_filter_map_events_fallback(rest);
        let x = events.last();
        assert(event_link(events[events.len() - 1]) == FALLBACK_URL@);
        match event_item(x) {
            Some(v) => {
                assert(event_items(events) == event_items(rest) + seq![v]);
                assert(v.url == FALLBACK_URL@);
                assert forall|i: int| 0 <= i < event_items(events).len() implies (
                #[trigger] event_items(events)[i]).url == FALLBACK_URL@ by {
                    if i < event_items(rest).len() {
                        assert(event_items(events)[i] == event_items(rest)[i]);
                    }
                }
            },
            None => {
                assert(event_items(events) == event_items(rest));
            },
        }
    }
}

/// When no event of the export carries a `URL` (as with Moodle's export),
/// every item it yields points to the upcoming-events page.
pub proof fn lemma_calendar_items_link_to_calendar(text: Seq<char>)
    requires
        forall|i: int|
            0 <= i < event_bodies(text).len() ==> #[trigger] property(event_bodies(text)[i], "URL"@)
                is None,
    ensures
        forall|i: int|
            0 <= i < calendar_items(text).len() ==> (#[trigger] calendar_items(text)[i]).url
                == FALLBACK_URL@,
{
    let events = event_bodies(text);
    assert forall|i: int| 0 <= i < events.len() implies #[trigger] event_link(events[i])
        == FALLBACK_URL@ by {
        assert(property(events[i], "URL"@) is None);
    }
    lemma_filter_map_events_fallback(events);
}

proof fn lemma_decimal_has_no_at(n: nat)
    ensures
        forall|i: int| 0 <= i < decimal(n).len() ==> #[trigger] decimal(n)[i] != '@',
    decreases n,
{
    if n >= 10 {
        lemma_decimal_has_no_at(n / 10);
        let p = decimal(n / 10);
        assert forall|i: int| 0 <= i < decimal(n).len() implies #[trigger] decimal(n)[i] != '@' by {
            if i < p.len() {
                assert(decimal(n)[i] == p[i]);
            }
        }
    }
}

/// The export's `UID` is `{event id}@{host}`: the item it yields has the
/// same id as the AJAX item of that event.
pub proof fn lemma_uid_matches_event_id(event: Seq<char>, id: i64, host: Seq<char>)
    requires
        id >= 0,
        property(event, "UID"@) == Some(signed_decimal(id as int) + seq!['@'] + host),
        event_item(event) is Some,
    ensures
        event_item(event)->0.id == signed_decimal(id as int),
{
    let digits = signed_decimal(id as int);
    let uid = digits + seq!['@'] + host;
    lemma_decimal_has_no_at(id as nat);
    assert(matches_at(uid, seq!['@'], digits.len() as int)) by {
        assert(uid.subrange(digits.len() as int, (digits.len() + 1) as int) =~= seq!['@']);
    }
    assert forall|j: int| 0 <= j < digits.len() implies !matches_at(uid, seq!['@'], j) by {
        assert(uid.subrange(j, j + 1)[0] == digits[j]);
    }
    lemma_find_from(uid, seq!['@'], 0);
    assert(find_from(uid, seq!['@'], 0) == digits.len());
    assert(before_first(uid, seq!['@']) =~= digits);
    assert(property_or_empty(event, "UID"@) == uid);
}


proof fn lemma_contains_around_space(a: Seq<char>, b: Seq<char>, k: Seq<char>)
    requires
        forall|i: int| 0 <= i < k.len() ==> k[i] != ' ',
    ensures
        contains_seq(a + seq![' '] + b, k) <==> contains_seq(a, k) || contains_seq(b, k),
{
    let t = a + seq![' '] + b;
    if contains_seq(a, k) {
        let i = choose|i: int| matches_at(a, k, i);
        assert(t.subrange(i, i + k.len()) =~= a.subrange(i, i + k.len()));
        assert(matches_at(t, k, i));
    }
    if contains_seq(b, k) {
        let j = choose|j: int| matches_at(b, k, j);
        let i = a.len() + 1 + j;
        assert(t.subrange(i, i + k.len()) =~= b.subrange(j, j + k.len()));
        assert(matches_at(t, k, i));
    }
    if contains_seq(t, k) {
        let i = choose|i: int| matches_at(t, k, i);
        if i + k.len() <= a.len() {
            assert(t.subrange(i, i + k.len()) =~= a.subrange(i, i + k.len()));
            assert(matches_at(a, k, i));
        } else if i >= a.len() + 1 {
            let j = i - a.len() - 1;
            assert(t.subrange(i, i + k.len()) =~= b.subrange(j, j + k.len()));
            assert(matches_at(b, k, j));
        } else {
            let m = a.len() - i;
            assert(t.subrange(i, i + k.len())[m] == t[a.len() as int]);
            assert(k[m] == ' ');
        }
    }
}

proof fn lemma_lower_around_space(a: Seq<char>, b: Seq<char>)
    ensures
        lower(a + seq![' '] + b) == lower(a) + seq![' '] + lower(b),
{
    assert(lower(a + seq![' '] + b) =~= lower(a) + seq![' '] + lower(b));
}

/// The kind guessed from a calendar entry does not depend on which of the
/// two texts a keyword is in, nor on ASCII case: no keyword holds a space,
/// so none can run across the two texts.
pub proof fn lemma_ical_kind_symmetric(
    summary: Seq<char>,
    description: Seq<char>,
    summary2: Seq<char>,
    description2: Seq<char>,
)
    requires
        lower(summary) == lower(summary2),
        lower(description) == lower(description2),
    ensures
        ical_text_kind(summary, description) == ical_text_kind(description, summary),
        ical_text_kind(summary, description) == ical_text_kind(summary2, description2),
{
    reveal_strlit("turnitin");
    reveal_strlit("quiz");
    reveal_strlit("test");
    reveal_strlit("exam");
    reveal_strlit("enrol");
    reveal_strlit("registration");
    reveal_strlit("assign");
    reveal_strlit("submission");
    reveal_strlit("due");
    let s = lower(summary);
    let d = lower(description);
    lemma_lower_around_space(summary, description);
    lemma_lower_around_space(description, summary);
    lemma_lower_around_space(summary2, description2);
    lemma_contains_around_space(s, d, "turnitin"@);
    lemma_contains_around_space(d, s, "turnitin"@);
    lemma_contains_around_space(s, d, "quiz"@);
    lemma_contains_around_space(d, s, "quiz"@);
    lemma_contains_around_space(s, d, "test"@);
    lemma_contains_around_space(d, s, "test"@);
    lemma_contains_around_space(s, d, "exam"@);
    lemma_contains_around_space(d, s, "exam"@);
    lemma_contains_around_space(s, d, "enrol"@);
    lemma_contains_around_space(d, s, "enrol"@);
    lemma_contains_around_space(s, d, "registration"@);
    lemma_contains_around_space(d, s, "registration"@);
    lemma_contains_around_space(s, d, "assign"@);
    lemma_contains_around_space(d, s, "assign"@);
    lemma_contains_around_space(s, d, "submission"@);
    lemma_contains_around_space(d, s, "submission"@);
    lemma_contains_around_space(s, d, "due"@);
    lemma_contains_around_space(d, s, "due"@);
}

/// Whether `text` mentions the lower-case keyword `k`, in any ASCII case.
pub open spec fn mentions(text: Seq<char>, k: Seq<char>) -> bool {
    contains_seq(lower(text), k)
}

/// Whether the summary or the description mentions `k`.
pub open spec fn either_mentions(summary: Seq<char>, description: Seq<char>, k: Seq<char>) -> bool {
    mentions(summary, k) || mentions(description, k)
}

/// The keywords that decide a calendar entry's kind, in order of
/// precedence, each looked for in the summary and the description in any
/// ASCII case: `turnitin` makes it a Turnitin submission; else `quiz`,
/// `test` or `exam` an assessment; else `enrol` or `registration` a
/// registration; else `assign`, `submission` or `due` an assignment; an
/// entry that mentions none of them is of no known kind.
pub proof fn lemma_ical_kind_keywords(summary: Seq<char>, description: Seq<char>)
    ensures
        either_mentions(summary, description, "turnitin"@) ==> ical_text_kind(summary, description)
            == TodoKind::Turnitin,
        !either_mentions(summary, description, "turnitin"@) && (either_mentions(
            summary,
            description,
            "quiz"@,
        ) || either_mentions(summary, description, "test"@) || either_mentions(
            summary,
            description,
            "exam"@,
        )) ==> ical_text_kind(summary, description) == TodoKind::Assessment,
        !either_mentions(summary, description, "turnitin"@) && !either_mentions(
            summary,
            description,
            "quiz"@,
        ) && !either_mentions(summary, description, "test"@) && !either_mentions(
            summary,
            description,
            "exam"@,
        ) && (either_mentions(summary, description, "enrol"@) || either_mentions(
            summary,
            description,
            "registration"@,
        )) ==> ical_text_kind(summary, description) == TodoKind::Registration,
        !either_mentions(summary, description, "turnitin"@) && !either_mentions(
            summary,
            description,
            "quiz"@,
        ) && !either_mentions(summary, description, "test"@) && !either_mentions(
            summary,
            description,
            "exam"@,
        ) && !either_mentions(summary, description, "enrol"@) && !either_mentions(
            summary,
            description,
            "registration"@,
        ) && (either_mentions(summary, description, "assign"@) || either_mentions(
            summary,
            description,
            "submission"@,
        ) || either_mentions(summary, description, "due"@)) ==> ical_text_kind(
            summary,
            description,
        ) == TodoKind::Assignment,
        !either_mentions(summary, description, "turnitin"@) && !either_mentions(
            summary,
            description,
            "quiz"@,
        ) && !either_mentions(summary, description, "test"@) && !either_mentions(
            summary,
            description,
            "exam"@,
        ) && !either_mentions(summary, description, "enrol"@) && !either_mentions(
            summary,
            description,
            "registration"@,
        ) && !either_mentions(summary, description, "assign"@) && !either_mentions(
            summary,
            description,
            "submission"@,
        ) && !either_mentions(summary, description, "due"@) ==> ical_text_kind(
            summary,
            description,
        ) == TodoKind::Other,
{
    reveal_strlit("turnitin");
    reveal_strlit("quiz");
    reveal_strlit("test");
    reveal_strlit("exam");
    reveal_strlit("enrol");
    reveal_strlit("registration");
    reveal_strlit("assign");
    reveal_strlit("submission");
    reveal_strlit("due");
    let s = lower(summary);
    let d = lower(description);
    lemma_lower_around_space(summary, description);
    lemma_contains_around_space(s, d, "turnitin"@);
    lemma_contains_around_space(s, d, "quiz"@);
    lemma_contains_around_space(s, d, "test"@);
    lemma_contains_around_space(s, d, "exam"@);
    lemma_contains_around_space(s, d, "enrol"@);
    lemma_contains_around_space(s, d, "registration"@);
    lemma_contains_around_space(s, d, "assign"@);
    lemma_contains_around_space(s, d, "submission"@);
    lemma_contains_around_space(s, d, "due"@);
}

/// The deadline that an iCalendar date value gives: the RFC 3339
/// timestamp when it is a date, else the value as it is.
pub open spec fn deadline_text(raw: Seq<char>) -> Seq<char> {
    match ics_datetime_iso(raw) {
        Some(d) => d,
        None => raw,
    }
}

/// What the item of one event holds. An event yields an item exactly when
/// it has a `SUMMARY` and a `DTEND` or a `DTSTART`. The deadline is read
/// from `DTEND` whenever there is one, from `DTSTART` only when there is
/// no `DTEND`. The title is the unescaped summary; the kind is guessed
/// from the summary and the description; the course is the unescaped
/// non-empty `CATEGORIES`, none without one; the link is the non-empty
/// `URL`, else the upcoming-events page.
pub proof fn lemma_event_item_fields(event: Seq<char>)
    ensures
        event_item(event) is Some <==> (property(event, "SUMMARY"@) is Some && (property(
            event,
            "DTEND"@,
        ) is Some || property(event, "DTSTART"@) is Some)),
        event_item(event) is Some && property(event, "DTEND"@) is Some ==> event_item(event)->0.deadline
            == deadline_text(property(event, "DTEND"@)->0),
        event_item(event) is Some && property(event, "DTEND"@) is None ==> event_item(event)->0.deadline
            == deadline_text(property(event, "DTSTART"@)->0),
        event_item(event) is Some ==> event_item(event)->0.title == unescape(
            property(event, "SUMMARY"@)->0,
        ),
        event_item(event) is Some ==> event_item(event)->0.kind == ical_text_kind(
            property(event, "SUMMARY"@)->0,
            property_or_empty(event, "DESCRIPTION"@),
        ),
        event_item(event) is Some && property_or_empty(event, "CATEGORIES"@).len() > 0
            ==> event_item(event)->0.course == Some(unescape(property_or_empty(event, "CATEGORIES"@))),
        event_item(event) is Some && property_or_empty(event, "CATEGORIES"@).len() == 0
            ==> event_item(event)->0.course is None,
        event_item(event) is Some && property_or_empty(event, "URL"@).len() > 0 ==> event_item(
            event,
        )->0.url == property_or_empty(event, "URL"@),
        event_item(event) is Some && property_or_empty(event, "URL"@).len() == 0 ==> event_item(
            event,
        )->0.url == FALLBACK_URL@,
{
}

/// The id of an event's item is its `UID` up to the first `@`; a `UID`
/// that starts with `@` is kept whole.
pub proof fn lemma_event_item_id(event: Seq<char>, head: Seq<char>, rest: Seq<char>)
    requires
        event_item(event) is Some,
        property_or_empty(event, "UID"@) == head + seq!['@'] + rest,
        forall|j: int| 0 <= j < head.len() ==> head[j] != '@',
    ensures
        event_item(event)->0.id == if head.len() > 0 {
            head
        } else {
            head + seq!['@'] + rest
        },
{
    let uid = head + seq!['@'] + rest;
    assert(matches_at(uid, seq!['@'], head.len() as int)) by {
        assert(uid.subrange(head.len() as int, (head.len() + 1) as int) =~= seq!['@']);
    }
    assert forall|j: int| 0 <= j < head.len() implies !matches_at(uid, seq!['@'], j) by {
        assert(uid.subrange(j, j + 1)[0] == head[j]);
    }
    lemma_find_from(uid, seq!['@'], 0);
    assert(find_from(uid, seq!['@'], 0) == head.len());
    assert(before_first(uid, seq!['@']) =~= head);
}

/// A `UID` without `@` is the item's id as it is.
pub proof fn lemma_event_item_id_without_at(event: Seq<char>)
    requires
        event_item(event) is Some,
        forall|j: int|
            0 <= j < property_or_empty(event, "UID"@).len() ==> property_or_empty(event, "UID"@)[j]
                != '@',
    ensures
        event_item(event)->0.id == property_or_empty(event, "UID"@),
{
    let uid = property_or_empty(event, "UID"@);
    assert forall|j: int| 0 <= j implies !matches_at(uid, seq!['@'], j) by {
        if j + 1 <= uid.len() {
            assert(uid.subrange(j, j + 1)[0] == uid[j]);
        }
    }
    lemma_find_from(uid, seq!['@'], 0);
}

} // verus!
