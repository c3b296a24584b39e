//! Character-level helpers on strings.
//!
//! Every function here is stated over the view of a string, a `Seq<char>`.
use vstd::prelude::*;

verus! {

/// Whether a character has the Unicode property `White_Space`: it is one
/// of the controls from tab to carriage return, the space, the next-line
/// control, the no-break space, the Ogham space mark, one of the spaces of
/// fixed width from the en quad to the hair space, a line or paragraph
/// separator, the narrow no-break space, the medium mathematical space or
/// the ideographic space.
pub open spec fn is_whitespace_char(c: char) -> bool {
    let u = c as u32;
    ||| 0x09 <= u <= 0x0D
    ||| u == 0x20
    ||| u == 0x85
    ||| u == 0xA0
    ||| u == 0x1680
    ||| 0x2000 <= u <= 0x200A
    ||| u == 0x2028
    ||| u == 0x2029
    ||| u == 0x202F
    ||| u == 0x205F
    ||| u == 0x3000
}

/// Calls `char::is_whitespace`, which says whether a character has the
/// Unicode property `White_Space`. Trusted: those are the characters that
/// [`is_whitespace_char`] lists.
#[verifier::external_body]
pub(crate) fn char_is_whitespace(c: char) -> (b: bool)
    ensures
        b == is_whitespace_char(c),
{
    c.is_whitespace()
}

/// The characters of a string, in order.
pub fn to_chars(s: &str) -> (v: Vec<char>)
    ensures
        v@ == s@,
{
    let mut v: Vec<char> = Vec::new();
    for c in it: s.chars()
        invariant
            v@ == it.seq().take(it.index() as int),
            it.seq() == s@,
    {
        v.push(c);
    }
    v
}

/// End of the run of whitespace that starts at `from`.
pub open spec fn ws_run(s: Seq<char>, from: int) -> int
    decreases s.len() - from,
{
    if 0 <= from < s.len() && is_whitespace_char(s[from]) {
        ws_run(s, from + 1)
    } else {
        from
    }
}

/// Start of the run of whitespace that ends at `to`.
pub open spec fn ws_run_back(s: Seq<char>, to: int) -> int
    decreases to,
{
    if 0 < to <= s.len() && is_whitespace_char(s[to - 1]) {
        ws_run_back(s, to - 1)
    } else {
        to
    }
}

/// The string without its leading whitespace.
pub open spec fn spec_trim_start(s: Seq<char>) -> Seq<char> {
    s.skip(ws_run(s, 0))
}

/// The string without its trailing whitespace.
pub open spec fn spec_trim_end(s: Seq<char>) -> Seq<char> {
    s.take(ws_run_back(s, s.len() as int))
}

/// The string without leading and trailing whitespace.
pub open spec fn spec_trim(s: Seq<char>) -> Seq<char> {
    spec_trim_end(spec_trim_start(s))
}

/// The run of whitespace from `from` ends in the string, holds whitespace
/// only, and cannot go on.
pub proof fn lemma_ws_run_bounds(s: Seq<char>, from: int)
    requires
        0 <= from <= s.len(),
    ensures
        from <= ws_run(s, from) <= s.len(),
        forall|i: int| from <= i < ws_run(s, from) ==> is_whitespace_char(#[trigger] s[i]),
        ws_run(s, from) < s.len() ==> !is_whitespace_char(s[ws_run(s, from)]),
    decreases s.len() - from,
{
    if from < s.len() && is_whitespace_char(s[from]) {
        lemma_ws_run_bounds(s, from + 1);
    }
}

/// The run of whitespace up to `to` begins in the string, holds whitespace
/// only, and cannot begin earlier.
pub proof fn lemma_ws_run_back_bounds(s: Seq<char>, to: int)
    requires
        0 <= to <= s.len(),
    ensures
        0 <= ws_run_back(s, to) <= to,
        forall|i: int| ws_run_back(s, to) <= i < to ==> is_whitespace_char(#[trigger] s[i]),
        ws_run_back(s, to) > 0 ==> !is_whitespace_char(s[ws_run_back(s, to) - 1]),
    decreases to,
{
    if 0 < to && is_whitespace_char(s[to - 1]) {
        lemma_ws_run_back_bounds(s, to - 1);
    }
}

/// Number of leading whitespace characters.
pub fn leading_whitespace_len(s: &str) -> (k: usize)
    ensures
        k == ws_run(s@, 0),
        k <= s@.len(),
{
    let v = to_chars(s);
    let mut i: usize = 0;
    while i < v.len() && char_is_whitespace(v[i])
        invariant
            i <= v.len(),
            v@ == s@,
            ws_run(s@, 0) == ws_run(s@, i as int),
        decreases v.len() - i,
    {
        i += 1;
    }
    proof {
        lemma_ws_run_bounds(s@, 0);
    }
    i
}

/// Length of the string without its trailing whitespace.
pub fn trimmed_end_len(s: &str) -> (k: usize)
    ensures
        k == ws_run_back(s@, s@.len() as int),
        k <= s@.len(),
{
    let v = to_chars(s);
    let mut i: usize = v.len();
    while i > 0 && char_is_whitespace(v[i - 1])
        invariant
            i <= v.len(),
            v@ == s@,
            ws_run_back(s@, s@.len() as int) == ws_run_back(s@, i as int),
        decreases i,
    {
        i -= 1;
    }
    i
}

/// `str::trim_end_matches(char::is_whitespace)`.
pub fn trim_end(s: &str) -> (r: &str)
    ensures
        r@ == spec_trim_end(s@),
{
    let k = trimmed_end_len(s);
    s.substring_char(0, k)
}

/// `str::trim_start_matches(char::is_whitespace)`.
pub fn trim_start(s: &str) -> (r: &str)
    ensures
        r@ == spec_trim_start(s@),
{
    let k = leading_whitespace_len(s);
    let n = s.unicode_len();
    s.substring_char(k, n)
}

/// `str::trim_matches(char::is_whitespace)`.
pub fn trim(s: &str) -> (r: &str)
    ensures
        r@ == spec_trim(s@),
{
    trim_end(trim_start(s))
}


/// Whether `pat` stands in `s` at position `i`.
pub open spec fn occurs_at(s: Seq<char>, pat: Seq<char>, i: int) -> bool {
    0 <= i && i + pat.len() <= s.len() && s.subrange(i, i + pat.len()) == pat
}

/// Position of the first occurrence of `pat` in `s` at or after `from`.
pub open spec fn find_from(s: Seq<char>, pat: Seq<char>, from: int) -> Option<int>
    decreases s.len() + 1 - from,
{
    if from < 0 || from + pat.len() > s.len() {
        None
    } else if occurs_at(s, pat, from) {
        Some(from)
    } else {
        find_from(s, pat, from + 1)
    }
}

/// Position of the first occurrence of `pat` in `s`.
pub open spec fn spec_find(s: Seq<char>, pat: Seq<char>) -> Option<int> {
    find_from(s, pat, 0)
}

/// Whether `s` begins with `pat`.
pub open spec fn spec_starts_with(s: Seq<char>, pat: Seq<char>) -> bool {
    occurs_at(s, pat, 0)
}

/// What [`find_from`] returns is the first occurrence at or after `from`, and
/// it returns `None` only where there is none.
pub proof fn lemma_find_from(s: Seq<char>, pat: Seq<char>, from: int)
    requires
        0 <= from,
    ensures
        match find_from(s, pat, from) {
            Some(i) => from <= i && occurs_at(s, pat, i) && forall|j: int|
                from <= j < i ==> !occurs_at(s, pat, j),
            None => forall|j: int| from <= j ==> !occurs_at(s, pat, j),
        },
    decreases s.len() + 1 - from,
{
    if from + pat.len() > s.len() {
    } else if occurs_at(s, pat, from) {
    } else {
        lemma_find_from(s, pat, from + 1);
    }
}

/// Whether `pat` stands in `v` at position `i`.
pub fn matches_at(v: &Vec<char>, pat: &Vec<char>, i: usize) -> (b: bool)
    ensures
        b == occurs_at(v@, pat@, i as int),
{
    if pat.len() > v.len() || i > v.len() - pat.len() {
        return false;
    }
    let mut k: usize = 0;
    while k < pat.len()
        invariant
            k <= pat.len(),
            i + pat.len() <= v.len(),
            forall|j: int| 0 <= j < k ==> v@[i + j] == pat@[j],
        decreases pat.len() - k,
    {
        if v[i + k] != pat[k] {
            assert(v@.subrange(i as int, i + pat.len())[k as int] == v@[i + k]);
            return false;
        }
        k += 1;
    }
    assert(v@.subrange(i as int, i + pat.len()) =~= pat@);
    true
}

/// Position of the first occurrence of `pat` in `v` at or after `from`.
pub fn find_in(v: &Vec<char>, pat: &Vec<char>, from: usize) -> (r: Option<usize>)
    ensures
        match r {
            Some(i) => find_from(v@, pat@, from as int) == Some(i as int) && i + pat@.len()
                <= v@.len(),
            None => find_from(v@, pat@, from as int) is None,
        },
{
    if pat.len() > v.len() || from > v.len() - pat.len() {
        return None;
    }
    let last: usize = v.len() - pat.len();
    let mut i: usize = from;
    loop
        invariant
            from <= i <= last,
            last == v.len() - pat.len(),
            find_from(v@, pat@, from as int) == find_from(v@, pat@, i as int),
        decreases last - i,
    {
        if matches_at(v, pat, i) {
            return Some(i);
        }
        if i == last {
            assert(find_from(v@, pat@, i + 1) is None);
            return None;
        }
        i += 1;
    }
}

/// `str::find` with a string pattern, counted in characters.
pub fn find(s: &str, pat: &str) -> (r: Option<usize>)
    ensures
        match r {
            Some(i) => spec_find(s@, pat@) == Some(i as int) && i + pat@.len() <= s@.len(),
            None => spec_find(s@, pat@) is None,
        },
{
    let v = to_chars(s);
    let p = to_chars(pat);
    find_in(&v, &p, 0)
}

/// `str::starts_with` with a string pattern.
pub fn starts_with(s: &str, pat: &str) -> (b: bool)
    ensures
        b == spec_starts_with(s@, pat@),
{
    let v = to_chars(s);
    let p = to_chars(pat);
    matches_at(&v, &p, 0)
}

/// `str::ends_with('\n')`.
pub fn ends_with_newline(s: &str) -> (b: bool)
    ensures
        b == (s@.len() > 0 && s@.last() == '\n'),
{
    let n = s.unicode_len();
    n > 0 && s.get_char(n - 1) == '\n'
}

/// Whether two strings hold the same characters.
pub fn str_eq(a: &str, b: &str) -> (r: bool)
    ensures
        r == (a@ == b@),
{
    let x = to_chars(a);
    let y = to_chars(b);
    if x.len() != y.len() {
        return false;
    }
    let r = matches_at(&x, &y, 0);
    assert(x@.subrange(0, x@.len() as int) =~= x@);
    r
}

/// An owned copy of a string slice.
pub fn owned(s: &str) -> (r: String)
    ensures
        r@ == s@,
{
    String::from_str(s)
}


/// A line without the carriage return that ends it, if one does.
pub open spec fn strip_cr(l: Seq<char>) -> Seq<char> {
    if l.len() > 0 && l.last() == '\r' {
        l.drop_last()
    } else {
        l
    }
}

/// The lines of `s` from `pos` on, where a line began at `start` and no line
/// feed stands between `start` and `pos`.
pub open spec fn lines_scan(s: Seq<char>, start: int, pos: int) -> Seq<Seq<char>>
    decreases s.len() - pos,
{
    if pos < 0 || pos >= s.len() {
        if 0 <= start < s.len() {
            seq![strip_cr(s.subrange(start, s.len() as int))]
        } else {
            Seq::empty()
        }
    } else if s[pos] == '\n' {
        seq![strip_cr(s.subrange(start, pos))] + lines_scan(s, pos + 1, pos + 1)
    } else {
        lines_scan(s, start, pos + 1)
    }
}

/// The lines of a text: it is cut after every line feed, the line feed is
/// dropped, then one carriage return at the end of each line. A text that
/// ends in a line feed has no empty last line.
pub open spec fn spec_lines(s: Seq<char>) -> Seq<Seq<char>> {
    lines_scan(s, 0, 0)
}

/// The parts, with `sep` between every two of them.
pub open spec fn spec_join(parts: Seq<Seq<char>>, sep: Seq<char>) -> Seq<char>
    decreases parts.len(),
{
    if parts.len() == 0 {
        Seq::empty()
    } else if parts.len() == 1 {
        parts[0]
    } else {
        spec_join(parts.drop_last(), sep) + sep + parts.last()
    }
}

/// The characters of each string.
pub open spec fn views(v: Seq<String>) -> Seq<Seq<char>> {
    Seq::new(v.len(), |i: int| v[i]@)
}

/// `s[from..to]` without one carriage return at its end.
fn line_between(s: &str, v: &Vec<char>, from: usize, to: usize) -> (r: String)
    requires
        v@ == s@,
        from <= to <= v.len(),
    ensures
        r@ == strip_cr(s@.subrange(from as int, to as int)),
{
    if to > from && v[to - 1] == '\r' {
        assert(s@.subrange(from as int, to as int).drop_last() =~= s@.subrange(
            from as int,
            to - 1,
        ));
        String::from_str(s.substring_char(from, to - 1))
    } else {
        String::from_str(s.substring_char(from, to))
    }
}

/// The lines of a text, see [`spec_lines`].
pub fn lines(s: &str) -> (r: Vec<String>)
    ensures
        views(r@) == spec_lines(s@),
{
    let v = to_chars(s);
    let mut out: Vec<String> = Vec::new();
    let mut start: usize = 0;
    let mut pos: usize = 0;
    assert(views(out@) =~= Seq::<Seq<char>>::empty());
    while pos < v.len()
        invariant
            v@ == s@,
            start <= pos <= v.len(),
            spec_lines(s@) == views(out@) + lines_scan(s@, start as int, pos as int),
        decreases v.len() - pos,
    {
        if v[pos] == '\n' {
            let line = line_between(s, &v, start, pos);
            let ghost before = out@;
            out.push(line);
            assert(views(out@) =~= views(before).push(line@));
            assert(views(before) + (seq![line@] + lines_scan(s@, pos + 1, pos + 1)) =~= views(
                out@,
            ) + lines_scan(s@, pos + 1, pos + 1));
            start = pos + 1;
        }
        pos += 1;
    }
    if start < v.len() {
        let line = line_between(s, &v, start, v.len());
        let ghost before = out@;
        out.push(line);
        assert(views(out@) =~= views(before).push(line@));
        assert(views(before) + seq![line@] =~= views(out@));
    } else {
        assert(views(out@) + Seq::<Seq<char>>::empty() =~= views(out@));
    }
    out
}

/// `parts[from..]`, with `sep` between every two of them.
pub fn join_from(parts: &Vec<String>, from: usize, sep: &str) -> (r: String)
    requires
        from <= parts.len(),
    ensures
        r@ == spec_join(views(parts@).skip(from as int), sep@),
{
    let mut out = String::new();
    let mut i: usize = from;
    let ghost all = views(parts@).skip(from as int);
    while i < parts.len()
        invariant
            from <= i <= parts.len(),
            all == views(parts@).skip(from as int),
            out@ == spec_join(all.take(i - from), sep@),
        decreases parts.len() - i,
    {
        if i > from {
            out.append(sep);
        }
        out.append(parts[i].as_str());
        proof {
            let next = all.take(i + 1 - from);
            assert(next.drop_last() =~= all.take(i - from));
            assert(next.last() == parts@[i as int]@);
            if i > from {
                assert(out@ == spec_join(next.drop_last(), sep@) + sep@ + next.last());
            } else {
                assert(out@ =~= next[0]);
            }
        }
        i += 1;
    }
    assert(all.take(parts.len() - from) =~= all);
    out
}

/// The parts, with `sep` between every two of them (`[String]::join`).
pub fn join(parts: &Vec<String>, sep: &str) -> (r: String)
    ensures
        r@ == spec_join(views(parts@), sep@),
{
    assert(views(parts@).skip(0) =~= views(parts@));
    join_from(parts, 0, sep)
}

/// The words of `s` from `pos` on, where a word began at `start` if `start`
/// is before `pos`, and no whitespace stands between the two.
pub open spec fn words_scan(s: Seq<char>, start: int, pos: int) -> Seq<Seq<char>>
    decreases s.len() - pos,
{
    if pos < 0 || pos >= s.len() {
        if 0 <= start < s.len() {
            seq![s.subrange(start, s.len() as int)]
        } else {
            Seq::empty()
        }
    } else if is_whitespace_char(s[pos]) {
        (if start < pos {
            seq![s.subrange(start, pos)]
        } else {
            Seq::empty()
        }) + words_scan(s, pos + 1, pos + 1)
    } else {
        words_scan(s, start, pos + 1)
    }
}

/// The words of a text: what stands between whitespace, none of them empty.
pub open spec fn spec_split_whitespace(s: Seq<char>) -> Seq<Seq<char>> {
    words_scan(s, 0, 0)
}

/// The words of a text, see [`spec_split_whitespace`] (`str::split_whitespace`).
pub fn split_whitespace(s: &str) -> (r: Vec<String>)
    ensures
        views(r@) == spec_split_whitespace(s@),
{
    let v = to_chars(s);
    let mut out: Vec<String> = Vec::new();
    let mut start: usize = 0;
    let mut pos: usize = 0;
    assert(views(out@) =~= Seq::<Seq<char>>::empty());
    while pos < v.len()
        invariant
            v@ == s@,
            start <= pos <= v.len(),
            spec_split_whitespace(s@) == views(out@) + words_scan(s@, start as int, pos as int),
        decreases v.len() - pos,
    {
        if char_is_whitespace(v[pos]) {
            let ghost before = out@;
            let ghost rest = words_scan(s@, pos + 1, pos + 1);
            if start < pos {
                let word = String::from_str(s.substring_char(start, pos));
                out.push(word);
                assert(views(out@) =~= views(before).push(word@));
                assert(views(before) + (seq![word@] + rest) =~= views(out@) + rest);
            } else {
                assert(views(before) + (Seq::<Seq<char>>::empty() + rest) =~= views(out@) + rest);
            }
            start = pos + 1;
        }
        pos += 1;
    }
    if start < v.len() {
        let word = String::from_str(s.substring_char(start, v.len()));
        let ghost before = out@;
        out.push(word);
        assert(views(out@) =~= views(before).push(word@));
        assert(views(before) + seq![word@] =~= views(out@));
    } else {
        assert(views(out@) + Seq::<Seq<char>>::empty() =~= views(out@));
    }
    out
}

/// Where `pat` stands in `s` at `i` and nowhere before, `i` is what
/// [`spec_find`] gives; where it stands nowhere, none is.
pub proof fn lemma_find_is_first_occurrence(s: Seq<char>, pat: Seq<char>, i: int)
    ensures
        occurs_at(s, pat, i) && (forall|j: int| 0 <= j < i ==> !occurs_at(s, pat, j))
            ==> spec_find(s, pat) == Some(i),
        (forall|j: int| 0 <= j ==> !occurs_at(s, pat, j)) ==> spec_find(s, pat) is None,
{
    lemma_find_from(s, pat, 0);
}

} // verus!
