//! Character-sequence primitives with exact specifications.
use vstd::prelude::*;

verus! {

/// Appends one character to a `String` (std's `String::push`).
#[verifier::external_body]
pub(crate) fn push_char(s: &mut String, c: char)
    ensures
        final(s)@ == old(s)@.push(c),
{
    s.push(c);
}

/// The characters of a string slice, in order.
pub fn chars_of(s: &str) -> (r: Vec<char>)
    ensures
        r@ == s@,
{
    let mut r: Vec<char> = Vec::new();
    for c in it: s.chars()
        invariant
            r@ == it.seq().take(it.index()),
            it.seq() == s@,
    {
        r.push(c);
    }
    r
}


/// `pat` occurs in `s` starting at position `i`.
pub open spec fn matches_at(s: Seq<char>, pat: Seq<char>, i: int) -> bool {
    0 <= i && i + pat.len() <= s.len() && s.subrange(i, i + pat.len()) == pat
}

/// The leftmost position `>= start` at which `pat` occurs in `s`, or `-1`.
pub open spec fn find_from(s: Seq<char>, pat: Seq<char>, start: int) -> int
    decreases s.len() - start,
{
    if start < 0 || start + pat.len() > s.len() {
        -1
    } else if matches_at(s, pat, start) {
        start
    } else if start >= s.len() {
        -1
    } else {
        find_from(s, pat, start + 1)
    }
}

/// `pat` occurs somewhere in `s`.
pub open spec fn contains_seq(s: Seq<char>, pat: Seq<char>) -> bool {
    exists|i: int| matches_at(s, pat, i)
}

/// `find_from` finds the leftmost occurrence at or after `start`.
pub proof fn lemma_find_from(s: Seq<char>, pat: Seq<char>, start: int)
    requires
        0 <= start,
    ensures
        find_from(s, pat, start) >= 0 ==> {
            let r = find_from(s, pat, start);
            &&& start <= r
            &&& r + pat.len() <= s.len()
            &&& matches_at(s, pat, r)
            &&& forall|j: int| start <= j < r ==> !matches_at(s, pat, j)
        },
        find_from(s, pat, start) < 0 ==> find_from(s, pat, start) == -1 && forall|j: int|
            start <= j ==> !matches_at(s, pat, j),
    decreases s.len() - start,
{
    if start + pat.len() > s.len() {
    } else if matches_at(s, pat, start) {
    } else if start >= s.len() {
        assert(pat.len() == 0);
        assert(s.subrange(start, start) =~= pat);
    } else {
        lemma_find_from(s, pat, start + 1);
    }
}

/// A pattern occurs exactly when searching for it from the start finds it.
pub proof fn lemma_contains_find(s: Seq<char>, pat: Seq<char>)
    ensures
        contains_seq(s, pat) <==> find_from(s, pat, 0) >= 0,
{
    lemma_find_from(s, pat, 0);
    if find_from(s, pat, 0) >= 0 {
        assert(matches_at(s, pat, find_from(s, pat, 0)));
    }
}

/// Whether `pat` occurs in `s` at position `i`.
pub fn matches_at_exec(s: &Vec<char>, pat: &Vec<char>, i: usize) -> (r: bool)
    ensures
        r == matches_at(s@, pat@, i as int),
{
    if i > s.len() || pat.len() > s.len() - i {
        return false;
    }
    let mut k: usize = 0;
    while k < pat.len()
        invariant
            i + pat.len() <= s.len(),
            k <= pat@.len(),
            forall|j: int| 0 <= j < k ==> s@[i + j] == pat@[j],
        decreases pat@.len() - k,
    {
        if s[i + k] != pat[k] {
            assert(s@.subrange(i as int, i + pat@.len())[k as int] != pat@[k as int]);
            return false;
        }
        k += 1;
    }
    assert(s@.subrange(i as int, i + pat@.len()) =~= pat@);
    true
}

/// The leftmost occurrence of `pat` in `s` at or after `start`.
pub fn find_from_exec(s: &Vec<char>, pat: &Vec<char>, start: usize) -> (r: Option<usize>)
    ensures
        match r {
            Some(i) => i == find_from(s@, pat@, start as int),
            None => find_from(s@, pat@, start as int) == -1,
        },
{
    proof {
        lemma_find_from(s@, pat@, start as int);
    }
    let mut i = start;
    while i <= s.len() && pat.len() <= s.len() - i
        invariant
            start <= i,
            forall|j: int| start <= j < i ==> !matches_at(s@, pat@, j),
        decreases s@.len() + 1 - i,
    {
        assert(pat@.len() == 0 ==> s@.subrange(i as int, i as int) =~= pat@);
        if matches_at_exec(s, pat, i) {
            proof {
                lemma_find_from(s@, pat@, start as int);
                let r = find_from(s@, pat@, start as int);
                if r < 0 {
                    assert(!matches_at(s@, pat@, i as int));
                } else if r < i {
                } else if r > i {
                    assert(!matches_at(s@, pat@, i as int));
                }
            }
            return Some(i);
        }
        i += 1;
    }
    proof {
        lemma_find_from(s@, pat@, start as int);
        let r = find_from(s@, pat@, start as int);
        if r >= 0 {
            assert(r < i);
            assert(!matches_at(s@, pat@, r));
        }
    }
    None
}


/// The pieces of `s[start..]` between the non-overlapping, leftmost
/// occurrences of a non-empty `pat` (the behaviour of `str::split`).
pub open spec fn split_from(s: Seq<char>, pat: Seq<char>, start: int) -> Seq<Seq<char>>
    decreases s.len() - start,
{
    if pat.len() == 0 || start < 0 || start > s.len() {
        seq![s.subrange(start, s.len() as int)]
    } else {
        let i = find_from(s, pat, start);
        if i < 0 {
            seq![s.subrange(start, s.len() as int)]
        } else {
            proof {
                lemma_find_from(s, pat, start);
            }
            seq![s.subrange(start, i)] + split_from(s, pat, i + pat.len())
        }
    }
}

/// `str::split` on a non-empty pattern.
pub open spec fn split(s: Seq<char>, pat: Seq<char>) -> Seq<Seq<char>> {
    split_from(s, pat, 0)
}

/// The parts joined with `sep` between consecutive parts.
pub open spec fn join(parts: Seq<Seq<char>>, sep: Seq<char>) -> Seq<char>
    decreases parts.len(),
{
    if parts.len() == 0 {
        Seq::empty()
    } else if parts.len() == 1 {
        parts[0]
    } else {
        parts[0] + sep + join(parts.drop_first(), sep)
    }
}

/// `str::replace`: every leftmost, non-overlapping occurrence of `from` is
/// replaced by `to`.
pub open spec fn replace(s: Seq<char>, from: Seq<char>, to: Seq<char>) -> Seq<char> {
    join(split(s, from), to)
}

/// Joining one more part appends the separator and the part.
pub proof fn lemma_join_push(parts: Seq<Seq<char>>, x: Seq<char>, sep: Seq<char>)
    requires
        parts.len() > 0,
    ensures
        join(parts.push(x), sep) == join(parts, sep) + sep + x,
    decreases parts.len(),
{
    if parts.len() == 1 {
        assert(parts.push(x).drop_first() =~= seq![x]);
        assert(join(seq![x], sep) == x);
        assert(join(parts, sep) == parts[0]);
    } else {
        assert(parts.push(x).drop_first() =~= parts.drop_first().push(x));
        lemma_join_push(parts.drop_first(), x, sep);
        assert(join(parts.push(x), sep) =~= join(parts, sep) + sep + x);
    }
}

/// Splitting always yields at least one piece.
pub proof fn lemma_split_from_nonempty(s: Seq<char>, pat: Seq<char>, start: int)
    ensures
        split_from(s, pat, start).len() >= 1,
    decreases s.len() - start,
{
    if pat.len() == 0 || start < 0 || start > s.len() {
    } else {
        let i = find_from(s, pat, start);
        if i >= 0 {
            lemma_find_from(s, pat, start);
            lemma_split_from_nonempty(s, pat, i + pat.len());
        }
    }
}

proof fn lemma_matches_shift(p: Seq<char>, b: Seq<char>, pat: Seq<char>, j: int)
    requires
        0 <= j,
    ensures
        matches_at(p + b, pat, p.len() + j) <==> matches_at(b, pat, j),
{
    if j + pat.len() <= b.len() {
        assert((p + b).subrange(p.len() + j, p.len() + j + pat.len()) =~= b.subrange(
            j,
            j + pat.len(),
        ));
    }
}

proof fn lemma_find_from_shift(p: Seq<char>, b: Seq<char>, pat: Seq<char>, j: int)
    requires
        0 <= j,
    ensures
        find_from(p + b, pat, p.len() + j) == if find_from(b, pat, j) < 0 {
            -1
        } else {
            p.len() + find_from(b, pat, j)
        },
    decreases b.len() - j,
{
    lemma_matches_shift(p, b, pat, j);
    if j + pat.len() > b.len() {
    } else if matches_at(b, pat, j) {
    } else if j >= b.len() {
    } else {
        lemma_find_from_shift(p, b, pat, j + 1);
    }
}

proof fn lemma_split_from_shift(p: Seq<char>, b: Seq<char>, pat: Seq<char>, j: int)
    requires
        pat.len() > 0,
        0 <= j <= b.len(),
    ensures
        split_from(p + b, pat, p.len() + j) == split_from(b, pat, j),
    decreases b.len() - j,
{
    let s = p + b;
    lemma_find_from_shift(p, b, pat, j);
    lemma_find_from(b, pat, j);
    let i = find_from(b, pat, j);
    if i < 0 {
        assert(s.subrange(p.len() + j, s.len() as int) =~= b.subrange(j, b.len() as int));
    } else {
        assert(s.subrange(p.len() + j, p.len() + i) =~= b.subrange(j, i));
        lemma_split_from_shift(p, b, pat, i + pat.len());
    }
}

/// Replacing a pattern that does not occur leaves the text as it is.
pub proof fn lemma_replace_absent(s: Seq<char>, from: Seq<char>, to: Seq<char>)
    requires
        from.len() > 0,
        !contains_seq(s, from),
    ensures
        replace(s, from, to) == s,
{
    lemma_contains_find(s, from);
    assert(s.subrange(0, s.len() as int) =~= s);
}

/// Replacing starts at the leftmost occurrence: the text before it is
/// kept, the occurrence becomes `to`, and the rest is replaced in turn.
pub proof fn lemma_replace_first(a: Seq<char>, b: Seq<char>, from: Seq<char>, to: Seq<char>)
    requires
        from.len() > 0,
        forall|j: int| 0 <= j < a.len() ==> !matches_at(a + from + b, from, j),
    ensures
        replace(a + from + b, from, to) == a + to + replace(b, from, to),
{
    let s = a + from + b;
    assert(matches_at(s, from, a.len() as int)) by {
        assert(s.subrange(a.len() as int, (a.len() + from.len()) as int) =~= from);
    }
    lemma_find_from(s, from, 0);
    let r = find_from(s, from, 0);
    assert(r == a.len());
    assert(s.subrange(0, a.len() as int) =~= a);
    assert(s =~= (a + from) + b);
    lemma_split_from_shift(a + from, b, from, 0);
    let rest = split_from(b, from, 0);
    lemma_split_from_nonempty(b, from, 0);
    let parts = split(s, from);
    assert(parts =~= seq![a] + rest);
    assert(parts.drop_first() =~= rest);
}

/// Appends `s[lo..hi]` to `out`.
pub fn push_range(out: &mut String, s: &Vec<char>, lo: usize, hi: usize)
    requires
        lo <= hi <= s@.len(),
    ensures
        final(out)@ == old(out)@ + s@.subrange(lo as int, hi as int),
{
    let mut k = lo;
    while k < hi
        invariant
            lo <= k <= hi <= s@.len(),
            out@ == old(out)@ + s@.subrange(lo as int, k as int),
        decreases hi - k,
    {
        push_char(out, s[k]);
        k += 1;
        assert(s@.subrange(lo as int, k as int) =~= s@.subrange(lo as int, k - 1).push(s@[k - 1]));
    }
}

/// Appends all of `s` to `out`.
pub fn push_all(out: &mut String, s: &Vec<char>)
    ensures
        final(out)@ == old(out)@ + s@,
{
    push_range(out, s, 0, s.len());
    assert(s@.subrange(0, s@.len() as int) =~= s@);
}

/// Appends a string slice to `out`.
pub fn push_str(out: &mut String, s: &str)
    ensures
        final(out)@ == old(out)@ + s@,
{
    let cs = chars_of(s);
    push_all(out, &cs);
}

/// `str::replace` on character vectors.
pub fn replace_exec(s: &Vec<char>, from: &Vec<char>, to: &Vec<char>) -> (r: String)
    requires
        from@.len() > 0,
    ensures
        r@ == replace(s@, from@, to@),
{
    let mut out = String::new();
    let mut start: usize = 0;
    let ghost whole = split_from(s@, from@, 0);
    loop
        invariant
            from@.len() > 0,
            start <= s@.len(),
            join(whole, to@) == out@ + join(split_from(s@, from@, start as int), to@),
            whole == split(s@, from@),
        decreases s@.len() - start,
    {
        proof {
            lemma_find_from(s@, from@, start as int);
        }
        match find_from_exec(s, from, start) {
            None => {
                push_range(&mut out, s, start, s.len());
                proof {
                    let parts = split_from(s@, from@, start as int);
                    assert(parts =~= seq![s@.subrange(start as int, s@.len() as int)]);
                }
                assert(out@ =~= join(whole, to@));
                return out;
            },
            Some(i) => {
                let ghost old_out = out@;
                let ghost parts = split_from(s@, from@, start as int);
                let ghost rest = split_from(s@, from@, i + from@.len());
                proof {
                    lemma_split_from_nonempty(s@, from@, i + from@.len());
                    assert(parts =~= seq![s@.subrange(start as int, i as int)] + rest);
                    assert(parts.drop_first() =~= rest);
                    assert(join(parts, to@) == s@.subrange(start as int, i as int) + to@ + join(rest, to@));
                }
                let slen = s.len();
                assert(i + from@.len() <= slen);
                push_range(&mut out, s, start, i);
                push_all(&mut out, to);
                start = i + from.len();
                assert(old_out + join(parts, to@) =~= out@ + join(rest, to@));
            },
        }
    }
}


/// Drops one trailing carriage return.
pub open spec fn strip_cr(l: Seq<char>) -> Seq<char> {
    if l.len() > 0 && l.last() == '\r' {
        l.drop_last()
    } else {
        l
    }
}

/// The lines of `s[start..]` as `str::lines` yields them: split at `\n`,
/// one `\r` before each `\n` dropped, no empty line after a final `\n`.
pub open spec fn lines_from(s: Seq<char>, start: int) -> Seq<Seq<char>>
    decreases s.len() - start,
{
    if start < 0 || start >= s.len() {
        Seq::empty()
    } else {
        let i = find_from(s, seq!['\n'], start);
        if i < 0 {
            seq![s.subrange(start, s.len() as int)]
        } else {
            proof {
                lemma_find_from(s, seq!['\n'], start);
            }
            seq![strip_cr(s.subrange(start, i))] + lines_from(s, i + 1)
        }
    }
}

/// `str::lines`.
pub open spec fn lines(s: Seq<char>) -> Seq<Seq<char>> {
    lines_from(s, 0)
}

/// The views of a sequence of character vectors.
pub open spec fn views(v: Seq<Vec<char>>) -> Seq<Seq<char>> {
    v.map_values(|l: Vec<char>| l@)
}

/// The lines of `s`, as `str::lines` yields them.
pub fn lines_exec(s: &Vec<char>) -> (r: Vec<Vec<char>>)
    ensures
        views(r@) == lines(s@),
{
    let nl: Vec<char> = vec!['\n'];
    let mut r: Vec<Vec<char>> = Vec::new();
    let mut start: usize = 0;
    assert(nl@ =~= seq!['\n']);
    while start < s.len()
        invariant
            nl@ == seq!['\n'],
            start <= s@.len(),
            lines(s@) == views(r@) + lines_from(s@, start as int),
        decreases s@.len() - start,
    {
        proof {
            lemma_find_from(s@, nl@, start as int);
        }
        let ghost r0 = views(r@);
        match find_from_exec(s, &nl, start) {
            None => {
                let mut line: Vec<char> = Vec::new();
                let mut k = start;
                while k < s.len()
                    invariant
                        start <= k <= s@.len(),
                        line@ == s@.subrange(start as int, k as int),
                    decreases s@.len() - k,
                {
                    line.push(s[k]);
                    k += 1;
                    assert(line@ =~= s@.subrange(start as int, k as int));
                }
                r.push(line);
                assert(views(r@) =~= r0 + lines_from(s@, start as int));
                assert(lines_from(s@, s@.len() as int) =~= Seq::<Seq<char>>::empty());
                start = s.len();
                assert(views(r@) + lines_from(s@, start as int) =~= views(r@));
            },
            Some(i) => {
                let mut end = i;
                if end > start && s[end - 1] == '\r' {
                    end = end - 1;
                }
                let mut line: Vec<char> = Vec::new();
                let mut k = start;
                while k < end
                    invariant
                        start <= k <= end <= s@.len(),
                        line@ == s@.subrange(start as int, k as int),
                    decreases end - k,
                {
                    line.push(s[k]);
                    k += 1;
                    assert(line@ =~= s@.subrange(start as int, k as int));
                }
                assert(line@ =~= strip_cr(s@.subrange(start as int, i as int)));
                r.push(line);
                assert(views(r@) =~= r0.push(strip_cr(s@.subrange(start as int, i as int))));
                start = i + 1;
                assert(lines(s@) =~= views(r@) + lines_from(s@, start as int));
            },
        }
    }
    assert(lines_from(s@, start as int) =~= Seq::<Seq<char>>::empty());
    assert(lines(s@) =~= views(r@));
    r
}

/// `char::is_whitespace`: the Unicode `White_Space` characters.
pub open spec fn is_whitespace(c: char) -> bool {
    ||| '\t' <= c <= '\r'
    ||| c == ' '
    ||| c == '\u{85}'
    ||| c == '\u{a0}'
    ||| c == '\u{1680}'
    ||| '\u{2000}' <= c <= '\u{200a}'
    ||| c == '\u{2028}'
    ||| c == '\u{2029}'
    ||| c == '\u{202f}'
    ||| c == '\u{205f}'
    ||| c == '\u{3000}'
}

/// Whether `c` is Unicode whitespace.
pub fn is_whitespace_exec(c: char) -> (r: bool)
    ensures
        r == is_whitespace(c),
{
    ('\t' <= c && c <= '\r') || c == ' ' || c == '\u{85}' || c == '\u{a0}' || c == '\u{1680}'
        || ('\u{2000}' <= c && c <= '\u{200a}') || c == '\u{2028}' || c == '\u{2029}' || c
        == '\u{202f}' || c == '\u{205f}' || c == '\u{3000}'
}

/// `s` without its leading whitespace.
pub open spec fn trim_start(s: Seq<char>) -> Seq<char>
    decreases s.len(),
{
    if s.len() > 0 && is_whitespace(s[0]) {
        trim_start(s.drop_first())
    } else {
        s
    }
}

/// `s` without its trailing whitespace.
pub open spec fn trim_end(s: Seq<char>) -> Seq<char>
    decreases s.len(),
{
    if s.len() > 0 && is_whitespace(s.last()) {
        trim_end(s.drop_last())
    } else {
        s
    }
}

/// `str::trim`: leading and trailing whitespace removed.
pub open spec fn trim(s: Seq<char>) -> Seq<char> {
    trim_end(trim_start(s))
}

/// The bounds of `trim(s[lo..hi])` within `s`.
pub fn trim_range(s: &Vec<char>, lo: usize, hi: usize) -> (r: (usize, usize))
    requires
        lo <= hi <= s@.len(),
    ensures
        lo <= r.0 <= r.1 <= hi,
        s@.subrange(r.0 as int, r.1 as int) == trim(s@.subrange(lo as int, hi as int)),
{
    let mut a = lo;
    while a < hi && is_whitespace_exec(s[a])
        invariant
            lo <= a <= hi <= s@.len(),
            trim_start(s@.subrange(lo as int, hi as int)) == trim_start(s@.subrange(a as int, hi as int)),
        decreases hi - a,
    {
        assert(s@.subrange(a as int, hi as int).drop_first() =~= s@.subrange(a + 1, hi as int));
        a += 1;
    }
    assert(trim_start(s@.subrange(a as int, hi as int)) == s@.subrange(a as int, hi as int));
    let mut b = hi;
    while b > a && is_whitespace_exec(s[b - 1])
        invariant
            lo <= a <= b <= hi <= s@.len(),
            trim_end(s@.subrange(a as int, hi as int)) == trim_end(s@.subrange(a as int, b as int)),
        decreases b - a,
    {
        assert(s@.subrange(a as int, b as int).drop_last() =~= s@.subrange(a as int, b - 1));
        b -= 1;
    }
    (a, b)
}

/// `char::to_ascii_lowercase`.
pub open spec fn lower_char(c: char) -> char {
    if 'A' <= c && c <= 'Z' {
        ((c as int) + 32) as char
    } else {
        c
    }
}

/// `c` with an ASCII upper-case letter made lower case.
pub fn lower_char_exec(c: char) -> (r: char)
    ensures
        r == lower_char(c),
{
    if 'A' <= c && c <= 'Z' {
        ((c as u8) + 32) as char
    } else {
        c
    }
}

/// `str::to_ascii_lowercase`.
pub open spec fn lower(s: Seq<char>) -> Seq<char> {
    s.map_values(|c: char| lower_char(c))
}

/// `str::eq_ignore_ascii_case`.
pub open spec fn eq_ignore_ascii_case(a: Seq<char>, b: Seq<char>) -> bool {
    lower(a) == lower(b)
}

/// Whether `s[lo..hi]` equals `pat` ignoring ASCII case.
pub fn range_eq_ignore_ascii_case(s: &Vec<char>, lo: usize, hi: usize, pat: &Vec<char>) -> (r: bool)
    requires
        lo <= hi <= s@.len(),
    ensures
        r == eq_ignore_ascii_case(s@.subrange(lo as int, hi as int), pat@),
{
    let ghost a = s@.subrange(lo as int, hi as int);
    if hi - lo != pat.len() {
        assert(lower(a).len() != lower(pat@).len());
        return false;
    }
    let mut k: usize = 0;
    while k < pat.len()
        invariant
            hi - lo == pat@.len(),
            lo <= hi <= s@.len(),
            a == s@.subrange(lo as int, hi as int),
            k <= pat@.len(),
            forall|j: int| 0 <= j < k ==> lower_char(a[j]) == lower_char(pat@[j]),
        decreases pat@.len() - k,
    {
        if lower_char_exec(s[lo + k]) != lower_char_exec(pat[k]) {
            assert(lower(a)[k as int] != lower(pat@)[k as int]);
            return false;
        }
        k += 1;
    }
    assert(lower(a) =~= lower(pat@));
    true
}


/// The ASCII digit for `d` in `0..10`.
pub open spec fn digit_char(d: int) -> char {
    if d == 0 {
        '0'
    } else if d == 1 {
        '1'
    } else if d == 2 {
        '2'
    } else if d == 3 {
        '3'
    } else if d == 4 {
        '4'
    } else if d == 5 {
        '5'
    } else if d == 6 {
        '6'
    } else if d == 7 {
        '7'
    } else if d == 8 {
        '8'
    } else {
        '9'
    }
}

/// The decimal digits of `n`, most significant first, without leading zeros.
pub open spec fn decimal(n: nat) -> Seq<char>
    decreases n,
{
    if n < 10 {
        seq![digit_char(n as int)]
    } else {
        decimal(n / 10).push(digit_char((n % 10) as int))
    }
}

/// `s` preceded by as many `'0'`s as make it `width` long.
pub open spec fn zero_pad(s: Seq<char>, width: nat) -> Seq<char> {
    if s.len() >= width {
        s
    } else {
        Seq::new((width - s.len()) as nat, |i: int| '0') + s
    }
}

/// `format!("{}", n)` for an integer.
pub open spec fn signed_decimal(n: int) -> Seq<char> {
    if n < 0 {
        seq!['-'] + decimal((-n) as nat)
    } else {
        decimal(n as nat)
    }
}

/// `format!("{:0w$}", n)` for an integer and `w >= 1`: zero padding goes
/// after the sign, and the sign counts toward the width.
pub open spec fn signed_zero_padded(n: int, width: nat) -> Seq<char> {
    if n < 0 {
        seq!['-'] + zero_pad(decimal((-n) as nat), (width - 1) as nat)
    } else {
        zero_pad(decimal(n as nat), width)
    }
}

fn digit_exec(d: u64) -> (r: char)
    requires
        d < 10,
    ensures
        r == digit_char(d as int),
{
    if d == 0 {
        '0'
    } else if d == 1 {
        '1'
    } else if d == 2 {
        '2'
    } else if d == 3 {
        '3'
    } else if d == 4 {
        '4'
    } else if d == 5 {
        '5'
    } else if d == 6 {
        '6'
    } else if d == 7 {
        '7'
    } else if d == 8 {
        '8'
    } else {
        '9'
    }
}

/// Appends the decimal digits of `n`.
pub fn push_decimal(out: &mut String, n: u64)
    ensures
        final(out)@ == old(out)@ + decimal(n as nat),
    decreases n,
{
    if n >= 10 {
        push_decimal(out, n / 10);
        push_char(out, digit_exec(n % 10));
        assert(final(out)@ =~= old(out)@ + decimal(n as nat));
    } else {
        push_char(out, digit_exec(n));
        assert(final(out)@ =~= old(out)@ + decimal(n as nat));
    }
}

/// The number of decimal digits of `n`.
pub fn decimal_len(n: u64) -> (r: u64)
    ensures
        r == decimal(n as nat).len(),
        1 <= r <= n / 10 + 1,
    decreases n,
{
    if n >= 10 {
        decimal_len(n / 10) + 1
    } else {
        1
    }
}

/// Appends `n` zero-padded to `width` digits.
pub fn push_zero_padded(out: &mut String, n: u64, width: u64)
    ensures
        final(out)@ == old(out)@ + zero_pad(decimal(n as nat), width as nat),
{
    let len = decimal_len(n);
    let ghost start = out@;
    if len < width {
        let mut k: u64 = 0;
        while k < width - len
            invariant
                len < width,
                k <= width - len,
                out@ == start + Seq::new(k as nat, |i: int| '0'),
            decreases width - len - k,
        {
            push_char(out, '0');
            k += 1;
            assert(out@ =~= start + Seq::new(k as nat, |i: int| '0'));
        }
    }
    let ghost mid = out@;
    push_decimal(out, n);
    assert(out@ =~= start + zero_pad(decimal(n as nat), width as nat));
}

fn magnitude(n: i64) -> (r: u64)
    ensures
        r as int == if n < 0 { -n } else { n as int },
{
    if n < 0 {
        (-(n as i128)) as u64
    } else {
        n as u64
    }
}

/// Appends `format!("{}", n)`.
pub fn push_signed(out: &mut String, n: i64)
    ensures
        final(out)@ == old(out)@ + signed_decimal(n as int),
{
    let m = magnitude(n);
    if n < 0 {
        push_char(out, '-');
    }
    push_decimal(out, m);
    assert(final(out)@ =~= old(out)@ + signed_decimal(n as int));
}

/// Appends `format!("{:0w$}", n)`.
pub fn push_signed_zero_padded(out: &mut String, n: i64, width: u64)
    requires
        width >= 1,
    ensures
        final(out)@ == old(out)@ + signed_zero_padded(n as int, width as nat),
{
    let m = magnitude(n);
    if n < 0 {
        push_char(out, '-');
        push_zero_padded(out, m, width - 1);
    } else {
        push_zero_padded(out, m, width);
    }
    assert(final(out)@ =~= old(out)@ + signed_zero_padded(n as int, width as nat));
}


/// `s` with ASCII letters in lower case (`str::to_ascii_lowercase`).
pub fn lower_exec(s: &Vec<char>) -> (r: Vec<char>)
    ensures
        r@ == lower(s@),
{
    let mut r: Vec<char> = Vec::new();
    let mut i: usize = 0;
    while i < s.len()
        invariant
            i <= s@.len(),
            r@ == lower(s@.take(i as int)),
        decreases s@.len() - i,
    {
        r.push(lower_char_exec(s[i]));
        i += 1;
        assert(r@ =~= lower(s@.take(i as int)));
    }
    assert(s@.take(s@.len() as int) =~= s@);
    r
}

/// Whether `pat` occurs in `s`.
pub fn contains_exec(s: &Vec<char>, pat: &Vec<char>) -> (r: bool)
    ensures
        r == contains_seq(s@, pat@),
{
    proof {
        lemma_contains_find(s@, pat@);
    }
    find_from_exec(s, pat, 0).is_some()
}

/// Whether the string slice `pat` occurs in `s`.
pub fn contains_str(s: &Vec<char>, pat: &str) -> (r: bool)
    ensures
        r == contains_seq(s@, pat@),
{
    let p = chars_of(pat);
    contains_exec(s, &p)
}

/// Whether two character vectors are equal.
pub fn chars_eq(a: &Vec<char>, b: &Vec<char>) -> (r: bool)
    ensures
        r == (a@ == b@),
{
    if a.len() != b.len() {
        return false;
    }
    let mut i: usize = 0;
    while i < a.len()
        invariant
            a@.len() == b@.len(),
            i <= a@.len(),
            forall|j: int| 0 <= j < i ==> a@[j] == b@[j],
        decreases a@.len() - i,
    {
        if a[i] != b[i] {
            return false;
        }
        i += 1;
    }
    assert(a@ =~= b@);
    true
}

/// Whether the characters `a` spell the string slice `b`.
pub fn chars_eq_str(a: &Vec<char>, b: &str) -> (r: bool)
    ensures
        r == (a@ == b@),
{
    let bc = chars_of(b);
    chars_eq(a, &bc)
}


/// The text of `s` before the first occurrence of `pat`, or all of `s`
/// (what `s.split(pat).next()` yields).
pub open spec fn before_first(s: Seq<char>, pat: Seq<char>) -> Seq<char> {
    let i = find_from(s, pat, 0);
    if i < 0 {
        s
    } else {
        s.subrange(0, i)
    }
}

/// The text before the first occurrence is the first piece of the split.
pub proof fn lemma_before_first_is_first_piece(s: Seq<char>, pat: Seq<char>)
    requires
        pat.len() > 0,
    ensures
        split(s, pat)[0] == before_first(s, pat),
{
    lemma_find_from(s, pat, 0);
}

/// A new vector holding `s[lo..hi]`.
pub fn sub_vec(s: &Vec<char>, lo: usize, hi: usize) -> (r: Vec<char>)
    requires
        lo <= hi <= s@.len(),
    ensures
        r@ == s@.subrange(lo as int, hi as int),
{
    let mut r: Vec<char> = Vec::new();
    let mut k = lo;
    while k < hi
        invariant
            lo <= k <= hi <= s@.len(),
            r@ == s@.subrange(lo as int, k as int),
        decreases hi - k,
    {
        r.push(s[k]);
        k += 1;
        assert(r@ =~= s@.subrange(lo as int, k as int));
    }
    r
}

/// The text of `s` before the first occurrence of `pat`.
pub fn before_first_exec(s: &Vec<char>, pat: &Vec<char>) -> (r: Vec<char>)
    ensures
        r@ == before_first(s@, pat@),
{
    proof {
        lemma_find_from(s@, pat@, 0);
    }
    match find_from_exec(s, pat, 0) {
        Some(i) => sub_vec(s, 0, i),
        None => {
            let r = sub_vec(s, 0, s.len());
            assert(r@ =~= s@);
            r
        },
    }
}

/// `str::split` on a non-empty pattern.
pub fn split_exec(s: &Vec<char>, pat: &Vec<char>) -> (r: Vec<Vec<char>>)
    requires
        pat@.len() > 0,
    ensures
        views(r@) == split(s@, pat@),
{
    let mut r: Vec<Vec<char>> = Vec::new();
    let mut start: usize = 0;
    loop
        invariant
            pat@.len() > 0,
            start <= s@.len(),
            split(s@, pat@) == views(r@) + split_from(s@, pat@, start as int),
        decreases s@.len() - start,
    {
        proof {
            lemma_find_from(s@, pat@, start as int);
        }
        let ghost r0 = views(r@);
        match find_from_exec(s, pat, start) {
            None => {
                let piece = sub_vec(s, start, s.len());
                r.push(piece);
                assert(views(r@) =~= r0 + split_from(s@, pat@, start as int));
                return r;
            },
            Some(i) => {
                let piece = sub_vec(s, start, i);
                r.push(piece);
                let slen = s.len();
                assert(i + pat@.len() <= slen);
                let ghost next = i + pat@.len();
                assert(split_from(s@, pat@, start as int) =~= seq![s@.subrange(start as int, i as int)]
                    + split_from(s@, pat@, next));
                assert(views(r@) =~= r0.push(s@.subrange(start as int, i as int)));
                start = i + pat.len();
                assert(split(s@, pat@) =~= views(r@) + split_from(s@, pat@, start as int));
            },
        }
    }
}


/// A `String` holding the string slice `s`.
pub fn owned(s: &str) -> (r: String)
    ensures
        r@ == s@,
{
    let mut r = String::new();
    push_str(&mut r, s);
    assert(r@ =~= s@);
    r
}

} // verus!
