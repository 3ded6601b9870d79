//! Characters, lines and blank-separated fields.
//!
//! Text is modelled as `Seq<char>`. The scanning functions are defined by
//! position, so that a cursor in executable code and an index in a
//! specification are the same number.

use vstd::prelude::*;
use vstd::slice::slice_subrange;
use vstd::std_specs::iter::IteratorSpec;

verus! {

/// The characters with the Unicode property `White_Space`.
pub open spec fn white_space(c: char) -> bool {
    ||| ('\u{9}' <= c && c <= '\u{d}')
    ||| c == ' '
    ||| c == '\u{85}'
    ||| c == '\u{a0}'
    ||| c == '\u{1680}'
    ||| ('\u{2000}' <= c && c <= '\u{200a}')
    ||| c == '\u{2028}'
    ||| c == '\u{2029}'
    ||| c == '\u{202f}'
    ||| c == '\u{205f}'
    ||| c == '\u{3000}'
}

/// The first position at or after `i` that holds `c`, or the length of `s`.
pub open spec fn find(s: Seq<char>, c: char, i: int) -> int
    decreases s.len() - i,
{
    if i < 0 || i >= s.len() {
        s.len() as int
    } else if s[i] == c {
        i
    } else {
        find(s, c, i + 1)
    }
}

/// The position after the line that starts at `i`: after its line feed, or
/// the end of the text where no line feed follows.
pub open spec fn line_end(s: Seq<char>, i: int) -> int {
    let n = find(s, '\n', i);
    if n < s.len() {
        n + 1
    } else {
        s.len() as int
    }
}

/// A line without its terminator: the final line feed, and a carriage
/// return right before it.
pub open spec fn content(line: Seq<char>) -> Seq<char> {
    let n = line.len() as int;
    if n >= 2 && line[n - 1] == '\n' && line[n - 2] == '\r' {
        line.take(n - 2)
    } else if n >= 1 && line[n - 1] == '\n' {
        line.take(n - 1)
    } else {
        line
    }
}

/// The first position at or after `i` that holds no white space.
pub open spec fn skip_white(s: Seq<char>, i: int) -> int
    decreases s.len() - i,
{
    if 0 <= i < s.len() && white_space(s[i]) {
        skip_white(s, i + 1)
    } else {
        i
    }
}

/// The first position at or after `i` that holds white space.
pub open spec fn skip_black(s: Seq<char>, i: int) -> int
    decreases s.len() - i,
{
    if 0 <= i < s.len() && !white_space(s[i]) {
        skip_black(s, i + 1)
    } else {
        i
    }
}

/// The end of `s[lo..hi]` once the white space at its end is taken off.
pub open spec fn trim_end(s: Seq<char>, lo: int, hi: int) -> int
    decreases hi,
{
    if 0 <= lo < hi <= s.len() && white_space(s[hi - 1]) {
        trim_end(s, lo, hi - 1)
    } else {
        hi
    }
}

/// `s` without the white space at either end.
pub open spec fn trimmed(s: Seq<char>) -> Seq<char> {
    let a = skip_white(s, 0);
    s.subrange(a, trim_end(s, a, s.len() as int))
}

/// Where the scan for field `k` of a line begins: behind field `k - 1`.
pub open spec fn field_scan(s: Seq<char>, k: nat) -> int
    decreases k,
{
    if k == 0 {
        0
    } else {
        skip_black(s, skip_white(s, field_scan(s, (k - 1) as nat)))
    }
}

/// Field `k` of a line, counted from 0: the `k`-th maximal run of
/// characters that are not white space.
pub open spec fn field(s: Seq<char>, k: nat) -> Option<Seq<char>> {
    let a = skip_white(s, field_scan(s, k));
    if a < s.len() {
        Some(s.subrange(a, skip_black(s, a)))
    } else {
        None
    }
}

/// The line that starts at `i`, with its line feed where it has one.
pub open spec fn line_at(s: Seq<char>, i: int) -> Seq<char> {
    s.subrange(i, line_end(s, i))
}

/// Where line `k` behind position `i` starts, counted from 0.
pub open spec fn nth_line(s: Seq<char>, i: int, k: nat) -> int
    decreases k,
{
    if k == 0 {
        i
    } else {
        line_end(s, nth_line(s, i, (k - 1) as nat))
    }
}

/// Line `row` of a table, counted from 0, whose first line starts at
/// `first`.
pub open spec fn row_line(s: Seq<char>, first: int, row: int) -> Seq<char> {
    line_at(s, nth_line(s, first, row as nat))
}

/// What a line says once its terminator is taken off, and the white space
/// at its ends too where `trim` is set.
pub open spec fn line_says(line: Seq<char>, trim: bool) -> Seq<char> {
    if trim {
        trimmed(content(line))
    } else {
        content(line)
    }
}

/// Where the first line at or after `i` starts that says `tag`, or the
/// length of `s` where no line does.
pub open spec fn closing_line(s: Seq<char>, i: int, trim: bool, tag: Seq<char>) -> int
    decreases s.len() - i,
    via closing_line_decreases
{
    if i < 0 || i >= s.len() {
        s.len() as int
    } else if line_says(line_at(s, i), trim) == tag {
        i
    } else {
        closing_line(s, line_end(s, i), trim, tag)
    }
}

#[via_fn]
proof fn closing_line_decreases(s: Seq<char>, i: int, trim: bool, tag: Seq<char>) {
    if 0 <= i < s.len() {
        lemma_line_end(s, i);
    }
}

/// The start of the line that holds position `i`.
pub open spec fn line_start(s: Seq<char>, i: int) -> int
    decreases i,
{
    if i <= 0 || i > s.len() {
        0
    } else if s[i - 1] == '\n' {
        i
    } else {
        line_start(s, i - 1)
    }
}

/// `s` without its last line, terminated or not.
pub open spec fn without_last_line(s: Seq<char>) -> Seq<char> {
    if s.len() == 0 {
        s
    } else {
        s.take(line_start(s, s.len() - 1))
    }
}

/// What `find` finds stands at or behind `i`, and nothing like it before.
pub proof fn lemma_find_bounds(s: Seq<char>, c: char, i: int)
    requires
        0 <= i <= s.len(),
    ensures
        i <= find(s, c, i) <= s.len(),
        find(s, c, i) < s.len() ==> s[find(s, c, i)] == c,
        forall|j: int| i <= j < find(s, c, i) ==> s[j] != c,
    decreases s.len() - i,
{
    if i < s.len() && s[i] != c {
        lemma_find_bounds(s, c, i + 1);
    }
}

/// A line ends behind where it starts, unless the text ends there; only
/// its last character can be a line feed.
pub proof fn lemma_line_end(s: Seq<char>, i: int)
    requires
        0 <= i <= s.len(),
    ensures
        i <= line_end(s, i) <= s.len(),
        i < s.len() ==> i < line_end(s, i),
        line_end(s, i) < s.len() ==> s[line_end(s, i) - 1] == '\n',
        forall|j: int| i <= j < line_end(s, i) - 1 ==> s[j] != '\n',
{
    lemma_find_bounds(s, '\n', i);
}

/// Lines start within the text, and none before the first one.
pub proof fn lemma_nth_line_bounds(s: Seq<char>, i: int, k: nat)
    requires
        0 <= i <= s.len(),
    ensures
        i <= nth_line(s, i, k) <= s.len(),
    decreases k,
{
    if k > 0 {
        lemma_nth_line_bounds(s, i, (k - 1) as nat);
        lemma_line_end(s, nth_line(s, i, (k - 1) as nat));
    }
}

/// The line that closes starts at or behind `i`.
pub proof fn lemma_closing_line_bounds(s: Seq<char>, i: int, trim: bool, tag: Seq<char>)
    requires
        0 <= i <= s.len(),
    ensures
        i <= closing_line(s, i, trim, tag) <= s.len(),
    decreases s.len() - i,
{
    if i < s.len() && line_says(line_at(s, i), trim) != tag {
        lemma_line_end(s, i);
        lemma_closing_line_bounds(s, line_end(s, i), trim, tag);
    }
}

/// Line `k` behind the line at `i` is line `k + 1` from `i` on.
proof fn lemma_nth_line_shift(s: Seq<char>, i: int, k: nat)
    ensures
        nth_line(s, line_end(s, i), k) == nth_line(s, i, k + 1),
    decreases k,
{
    if k > 0 {
        lemma_nth_line_shift(s, i, (k - 1) as nat);
        assert(nth_line(s, i, k + 1) == line_end(s, nth_line(s, i, k)));
    } else {
        assert(nth_line(s, i, 0) == i);
        assert(nth_line(s, i, 1) == line_end(s, nth_line(s, i, 0)));
    }
}

/// Where none of the lines from `i` on says `tag`, no line closes.
pub proof fn lemma_no_closing_line(s: Seq<char>, i: int, trim: bool, tag: Seq<char>)
    requires
        0 <= i <= s.len(),
        forall|k: nat|
            nth_line(s, i, k) < s.len() ==> line_says(
                line_at(s, #[trigger] nth_line(s, i, k)),
                trim,
            ) != tag,
    ensures
        closing_line(s, i, trim, tag) == s.len(),
    decreases s.len() - i,
{
    if i < s.len() {
        assert(nth_line(s, i, 0) == i);
        lemma_line_end(s, i);
        let next = line_end(s, i);
        assert forall|k: nat| nth_line(s, next, k) < s.len() implies line_says(
            line_at(s, #[trigger] nth_line(s, next, k)),
            trim,
        ) != tag by {
            lemma_nth_line_shift(s, i, k);
            assert(nth_line(s, i, k + 1) < s.len());
        }
        lemma_no_closing_line(s, next, trim, tag);
    }
}

/// Where line `k` from `i` on says `tag` and no line before it does, line
/// `k` is the one that closes.
pub proof fn lemma_closing_line_found(s: Seq<char>, i: int, trim: bool, tag: Seq<char>, k: nat)
    requires
        0 <= i <= s.len(),
        nth_line(s, i, k) < s.len(),
        line_says(line_at(s, nth_line(s, i, k)), trim) == tag,
        forall|j: nat|
            j < k ==> line_says(line_at(s, #[trigger] nth_line(s, i, j)), trim) != tag,
    ensures
        closing_line(s, i, trim, tag) == nth_line(s, i, k),
    decreases k,
{
    lemma_nth_line_bounds(s, i, k);
    assert(nth_line(s, i, 0) == i);
    if k > 0 {
        lemma_line_end(s, i);
        let next = line_end(s, i);
        lemma_nth_line_shift(s, i, (k - 1) as nat);
        assert forall|j: nat| j < k - 1 implies line_says(
            line_at(s, #[trigger] nth_line(s, next, j)),
            trim,
        ) != tag by {
            lemma_nth_line_shift(s, i, j);
            assert(line_says(line_at(s, nth_line(s, i, j + 1)), trim) != tag);
        }
        lemma_closing_line_found(s, next, trim, tag, (k - 1) as nat);
    }
}

/// Whether `s` ends where a line ends: it is empty, or its last character
/// is a line feed.
pub open spec fn ends_with_line(s: Seq<char>) -> bool {
    s.len() == 0 || s.last() == '\n'
}

/// A line of a text that ends where a line ends is the same line with
/// more text behind the text.
pub proof fn lemma_line_with_more(s: Seq<char>, more: Seq<char>, i: int)
    requires
        ends_with_line(s),
        0 <= i < s.len(),
    ensures
        line_end(s + more, i) == line_end(s, i),
        line_at(s + more, i) == line_at(s, i),
        i < line_end(s, i) <= s.len(),
{
    let t = s + more;
    lemma_find_bounds(s, '\n', i);
    let feed = find(s, '\n', i);
    assert(feed < s.len()) by {
        if feed >= s.len() {
            assert(s[s.len() - 1] != '\n');
        }
    }
    assert forall|k: int| i <= k < feed implies t[k] != '\n' by {
        assert(t[k] == s[k]);
    }
    assert(t[feed] == s[feed]);
    lemma_find_first(t, '\n', i, feed);
    assert(t.subrange(i, feed + 1) =~= s.subrange(i, feed + 1));
}

/// The lines of a text that ends where a line ends start where they
/// start with more text behind the text, up to the first line that starts
/// at the end of the text.
pub proof fn lemma_nth_line_with_more(s: Seq<char>, more: Seq<char>, i: int, k: nat)
    requires
        ends_with_line(s),
        0 <= i <= s.len(),
        k > 0 ==> nth_line(s, i, (k - 1) as nat) < s.len(),
    ensures
        nth_line(s + more, i, k) == nth_line(s, i, k),
    decreases k,
{
    if k > 0 {
        let before = nth_line(s, i, (k - 1) as nat);
        lemma_nth_line_bounds(s, i, (k - 1) as nat);
        if k > 1 {
            lemma_nth_line_bounds(s, i, (k - 2) as nat);
            lemma_line_end(s, nth_line(s, i, (k - 2) as nat));
            assert(before == line_end(s, nth_line(s, i, (k - 2) as nat)));
        }
        lemma_nth_line_with_more(s, more, i, (k - 1) as nat);
        lemma_line_with_more(s, more, before);
    }
}

/// Later lines start no earlier.
pub proof fn lemma_nth_line_grows(s: Seq<char>, i: int, j: nat, k: nat)
    requires
        0 <= i <= s.len(),
        j <= k,
    ensures
        nth_line(s, i, j) <= nth_line(s, i, k),
    decreases k - j,
{
    if j < k {
        lemma_nth_line_grows(s, i, j, (k - 1) as nat);
        lemma_nth_line_bounds(s, i, (k - 1) as nat);
        lemma_line_end(s, nth_line(s, i, (k - 1) as nat));
    }
}

/// Whether two texts hold row `r` of a table on the same line, which
/// starts within the first text.
pub open spec fn same_row(s: Seq<char>, t: Seq<char>, first: int, r: int) -> bool {
    &&& nth_line(t, first, r as nat) == nth_line(s, first, r as nat)
    &&& nth_line(s, first, r as nat) < s.len()
    &&& row_line(t, first, r) == row_line(s, first, r)
}

/// Whether two texts hold the first `rows` rows of a table on the same
/// lines, which all start within the first text.
pub open spec fn same_rows(s: Seq<char>, t: Seq<char>, first: int, rows: nat) -> bool {
    forall|r: int| 0 <= r < rows ==> #[trigger] same_row(s, t, first, r)
}

/// The rows of a table that all start within a text that ends where a
/// line ends are the same rows with more text behind the text.
pub proof fn lemma_rows_with_more(s: Seq<char>, more: Seq<char>, first: int, rows: nat)
    requires
        ends_with_line(s),
        0 <= first <= s.len(),
        rows > 0 ==> nth_line(s, first, (rows - 1) as nat) < s.len(),
    ensures
        nth_line(s + more, first, rows) == nth_line(s, first, rows),
        same_rows(s, s + more, first, rows),
{
    let t = s + more;
    lemma_nth_line_with_more(s, more, first, rows);
    assert forall|r: int| 0 <= r < rows implies #[trigger] same_row(s, t, first, r) by {
        let k = r as nat;
        let last = (rows - 1) as nat;
        lemma_nth_line_bounds(s, first, k);
        lemma_nth_line_grows(s, first, k, last);
        if k > 0 {
            lemma_nth_line_grows(s, first, (k - 1) as nat, last);
        }
        lemma_nth_line_with_more(s, more, first, k);
        lemma_line_with_more(s, more, nth_line(s, first, k));
    }
}

/// The line that closes in a text that ends where a line ends closes with
/// more text behind the text too.
pub proof fn lemma_closing_line_with_more(
    s: Seq<char>,
    more: Seq<char>,
    i: int,
    trim: bool,
    tag: Seq<char>,
)
    requires
        ends_with_line(s),
        0 <= i <= s.len(),
        closing_line(s, i, trim, tag) < s.len(),
    ensures
        closing_line(s + more, i, trim, tag) == closing_line(s, i, trim, tag),
    decreases s.len() - i,
{
    if i < s.len() {
        lemma_line_with_more(s, more, i);
        if line_says(line_at(s, i), trim) != tag {
            lemma_closing_line_with_more(s, more, line_end(s, i), trim, tag);
        }
    }
}

/// Where `c` stands at `j` and nowhere from `i` up to `j`, it is found at
/// `j`.
pub proof fn lemma_find_first(s: Seq<char>, c: char, i: int, j: int)
    requires
        0 <= i <= j < s.len(),
        s[j] == c,
        forall|k: int| i <= k < j ==> s[k] != c,
    ensures
        find(s, c, i) == j,
    decreases j - i,
{
    if i < j {
        lemma_find_first(s, c, i + 1, j);
    }
}

/// Skipping white space goes forward, and not past the end.
pub proof fn lemma_skip_white_bounds(s: Seq<char>, i: int)
    requires
        0 <= i <= s.len(),
    ensures
        i <= skip_white(s, i) <= s.len(),
    decreases s.len() - i,
{
    if i < s.len() && white_space(s[i]) {
        lemma_skip_white_bounds(s, i + 1);
    }
}

/// Skipping a field goes forward, and not past the end.
pub proof fn lemma_skip_black_bounds(s: Seq<char>, i: int)
    requires
        0 <= i <= s.len(),
    ensures
        i <= skip_black(s, i) <= s.len(),
        i < s.len() && !white_space(s[i]) ==> i < skip_black(s, i),
    decreases s.len() - i,
{
    if i < s.len() && !white_space(s[i]) {
        lemma_skip_black_bounds(s, i + 1);
    }
}

/// The scan for a field begins within the line.
pub proof fn lemma_field_scan_bounds(s: Seq<char>, k: nat)
    ensures
        0 <= field_scan(s, k) <= s.len(),
    decreases k,
{
    if k > 0 {
        lemma_field_scan_bounds(s, (k - 1) as nat);
        let p = field_scan(s, (k - 1) as nat);
        lemma_skip_white_bounds(s, p);
        lemma_skip_black_bounds(s, skip_white(s, p));
    }
}

/// Behind a missing field every field is missing.
pub proof fn lemma_field_missing(s: Seq<char>, k: nat, m: nat)
    requires
        field(s, k) is None,
        k <= m,
    ensures
        field(s, m) is None,
    decreases m - k,
{
    if k < m {
        lemma_field_scan_bounds(s, k);
        lemma_skip_white_bounds(s, field_scan(s, k));
        let a = skip_white(s, field_scan(s, k));
        assert(a == s.len());
        assert(skip_black(s, a) == a);
        assert(field_scan(s, k + 1) == a);
        assert(skip_white(s, a) == a);
        lemma_field_missing(s, k + 1, m);
    }
}

/// A line put behind a text that is empty or ends in a line feed is the
/// last line of the whole.
pub proof fn lemma_without_appended_line(buf: Seq<char>, line: Seq<char>)
    requires
        buf.len() == 0 || buf.last() == '\n',
        line.len() > 0,
        forall|j: int| 0 <= j < line.len() - 1 ==> line[j] != '\n',
    ensures
        without_last_line(buf + line) == buf,
{
    let s = buf + line;
    lemma_line_start_between(s, buf.len() as int, s.len() - 1);
    assert(s.take(buf.len() as int) =~= buf);
}

/// A line starts behind the last line feed before it.
proof fn lemma_line_start_between(s: Seq<char>, b: int, i: int)
    requires
        0 <= b <= i <= s.len(),
        b == 0 || s[b - 1] == '\n',
        forall|j: int| b <= j < i ==> s[j] != '\n',
    ensures
        line_start(s, i) == b,
    decreases i - b,
{
    if i > b {
        lemma_line_start_between(s, b, i - 1);
    }
}

/// Whether `c` is white space.
pub fn is_whitespace(c: char) -> (b: bool)
    ensures
        b == white_space(c),
{
    ('\u{9}' <= c && c <= '\u{d}') || c == ' ' || c == '\u{85}' || c == '\u{a0}' || c
        == '\u{1680}' || ('\u{2000}' <= c && c <= '\u{200a}') || c == '\u{2028}' || c
        == '\u{2029}' || c == '\u{202f}' || c == '\u{205f}' || c == '\u{3000}'
}

/// The characters of `s`, in order.
pub fn to_chars(s: &str) -> (v: Vec<char>)
    ensures
        v@ == s@,
{
    let mut v: Vec<char> = Vec::new();
    for c in it: s.chars()
        invariant
            v@ == it.seq().take(it.index() as int),
            it.seq() == s@,
    {
        v.push(c);
    }
    v
}

/// Calls `String::push`, which puts one character at the end of a string.
#[verifier::external_body]
fn push_char(s: &mut String, c: char)
    ensures
        final(s)@ == old(s)@.push(c),
{
    s.push(c)
}

/// Puts the characters of `v` at the end of `s`.
pub fn append_chars(s: &mut String, v: &[char])
    ensures
        final(s)@ == old(s)@ + v@,
{
    let mut i: usize = 0;
    while i < v.len()
        invariant
            i <= v.len(),
            s@ == old(s)@ + v@.take(i as int),
        decreases v.len() - i,
    {
        push_char(s, v[i]);
        i += 1;
        assert(v@.take(i as int) == v@.take(i - 1).push(v@[i - 1]));
    }
    assert(v@.take(v@.len() as int) == v@);
}

/// A string of the characters of `v`.
pub fn string_of(v: &[char]) -> (s: String)
    ensures
        s@ == v@,
{
    let mut s = String::new();
    append_chars(&mut s, v);
    s
}

/// Whether `v` holds exactly the characters of `word`.
pub fn text_eq(v: &[char], word: &str) -> (b: bool)
    ensures
        b == (v@ == word@),
{
    let w = to_chars(word);
    if v.len() != w.len() {
        return false;
    }
    let mut i: usize = 0;
    while i < v.len()
        invariant
            i <= v.len(),
            v.len() == w.len(),
            w@ == word@,
            v@.take(i as int) == w@.take(i as int),
        decreases v.len() - i,
    {
        if v[i] != w[i] {
            return false;
        }
        i += 1;
        assert(v@.take(i as int) == v@.take(i - 1).push(v@[i - 1]));
        assert(w@.take(i as int) == w@.take(i - 1).push(w@[i - 1]));
    }
    assert(v@.take(v@.len() as int) == v@);
    assert(w@.take(w@.len() as int) == w@);
    true
}

/// The first position at or after `from` that holds `c`, or the length of
/// `s`.
pub fn find_char(s: &[char], c: char, from: usize) -> (r: usize)
    requires
        from <= s.len(),
    ensures
        r == find(s@, c, from as int),
        from <= r <= s.len(),
{
    let mut i = from;
    while i < s.len() && s[i] != c
        invariant
            from <= i <= s.len(),
            find(s@, c, i as int) == find(s@, c, from as int),
        decreases s.len() - i,
    {
        i += 1;
    }
    i
}

/// The line without its terminator.
pub fn line_content(line: &[char]) -> (r: &[char])
    ensures
        r@ == content(line@),
{
    let n = line.len();
    if n >= 2 && line[n - 1] == '\n' && line[n - 2] == '\r' {
        slice_subrange(line, 0, n - 2)
    } else if n >= 1 && line[n - 1] == '\n' {
        slice_subrange(line, 0, n - 1)
    } else {
        assert(line@.subrange(0, n as int) == line@);
        slice_subrange(line, 0, n)
    }
}

/// The first position at or after `from` that holds no white space.
pub fn skip_white_space(s: &[char], from: usize) -> (r: usize)
    requires
        from <= s.len(),
    ensures
        r == skip_white(s@, from as int),
        from <= r <= s.len(),
        r < s.len() ==> !white_space(s@[r as int]),
{
    let mut i = from;
    while i < s.len() && is_whitespace(s[i])
        invariant
            from <= i <= s.len(),
            skip_white(s@, i as int) == skip_white(s@, from as int),
        decreases s.len() - i,
    {
        i += 1;
    }
    i
}

/// The first position at or after `from` that holds white space.
pub fn skip_to_white_space(s: &[char], from: usize) -> (r: usize)
    requires
        from <= s.len(),
    ensures
        r == skip_black(s@, from as int),
        from <= r <= s.len(),
{
    let mut i = from;
    while i < s.len() && !is_whitespace(s[i])
        invariant
            from <= i <= s.len(),
            skip_black(s@, i as int) == skip_black(s@, from as int),
        decreases s.len() - i,
    {
        i += 1;
    }
    i
}

/// The part of `s` between the white space at its ends.
pub fn trim(s: &[char]) -> (r: &[char])
    ensures
        r@ == trimmed(s@),
{
    let a = skip_white_space(s, 0);
    let mut b = s.len();
    while b > a && is_whitespace(s[b - 1])
        invariant
            a <= b <= s.len(),
            trim_end(s@, a as int, b as int) == trim_end(s@, a as int, s.len() as int),
        decreases b,
    {
        b -= 1;
    }
    slice_subrange(s, a, b)
}

/// The fields of a line, in order.
pub fn split_whitespace(line: &[char]) -> (fields: Vec<String>)
    ensures
        forall|k: nat|
            #[trigger] field(line@, k) == if k < fields.len() {
                Some(fields[k as int]@)
            } else {
                None
            },
{
    let mut fields: Vec<String> = Vec::new();
    let mut i: usize = 0;
    loop
        invariant
            i <= line.len(),
            i == field_scan(line@, fields.len() as nat),
            forall|k: nat| k < fields.len() ==> #[trigger] field(line@, k) == Some(fields[k as int]@),
        ensures
            field(line@, fields.len() as nat) is None,
            forall|k: nat| k < fields.len() ==> #[trigger] field(line@, k) == Some(fields[k as int]@),
        decreases line.len() - i,
    {
        let a = skip_white_space(line, i);
        if a >= line.len() {
            break ;
        }
        let b = skip_to_white_space(line, a);
        proof {
            lemma_skip_black_bounds(line@, a as int);
        }
        fields.push(string_of(slice_subrange(line, a, b)));
        i = b;
    }
    assert forall|k: nat|
        #[trigger] field(line@, k) == if k < fields.len() {
            Some(fields[k as int]@)
        } else {
            None
        } by {
        if k >= fields.len() {
            lemma_field_missing(line@, fields.len() as nat, k);
        }
    }
    fields
}

/// Field `k` of the fields of a line.
pub fn nth_field(fields: &Vec<String>, k: usize) -> (r: Option<&str>)
    ensures
        k < fields.len() ==> r is Some && r->0@ == fields[k as int]@,
        k >= fields.len() ==> r is None,
{
    if k < fields.len() {
        Some(fields[k].as_str())
    } else {
        None
    }
}

/// Takes the last line off `s`.
pub fn pop_line(s: &mut String)
    ensures
        final(s)@ == without_last_line(old(s)@),
{
    let v = to_chars(s.as_str());
    if v.len() > 0 {
        let mut k: usize = v.len() - 1;
        while k > 0 && v[k - 1] != '\n'
            invariant
                k < v.len(),
                line_start(v@, k as int) == line_start(v@, v.len() - 1),
            decreases k,
        {
            k -= 1;
        }
        *s = string_of(slice_subrange(v.as_slice(), 0, k));
    }
}

} // verus!
