//! Character-level helpers shared by the line-oriented parsers.

use crate::path::texts;
use vstd::prelude::*;
use vstd::string::*;

verus! {

/// The characters that separate tokens: those with the Unicode
/// `White_Space` property.
pub open spec fn is_whitespace(c: char) -> bool {
    let u = c as u32;
    ||| 0x09 <= u <= 0x0D
    ||| u == 0x20
    ||| u == 0x85
    ||| u == 0xA0
    ||| u == 0x1680
    ||| 0x2000 <= u <= 0x200A
    ||| u == 0x2028
    ||| u == 0x2029
    ||| u == 0x202F
    ||| u == 0x205F
    ||| u == 0x3000
}

/// Whether `c` is whitespace, as `char::is_whitespace` tells.
pub fn char_is_whitespace(c: char) -> (r: bool)
    ensures
        r == is_whitespace(c),
{
    let u: u32 = c as u32;
    (0x09 <= u && u <= 0x0D) || u == 0x20 || u == 0x85 || u == 0xA0 || u == 0x1680 || (0x2000 <= u
        && u <= 0x200A) || u == 0x2028 || u == 0x2029 || u == 0x202F || u == 0x205F || u == 0x3000
}

/// The characters of a string slice, in order.
pub fn chars_of(s: &str) -> (v: Vec<char>)
    ensures
        v@ == s@,
{
    let mut v: Vec<char> = Vec::new();
    for c in it: s.chars()
        invariant
            it.seq() == s@,
            v@ == it.seq().subrange(0, it.index() as int),
    {
        v.push(c);
    }
    v
}

/// First position at or after `i` that holds no whitespace (or the end).
pub open spec fn skip_whitespace(s: Seq<char>, i: int) -> int
    decreases s.len() - i,
{
    if 0 <= i < s.len() && is_whitespace(s[i]) {
        skip_whitespace(s, i + 1)
    } else {
        i
    }
}

/// First position at or after `i` that holds whitespace (or the end).
pub open spec fn skip_token(s: Seq<char>, i: int) -> int
    decreases s.len() - i,
{
    if 0 <= i < s.len() && !is_whitespace(s[i]) {
        skip_token(s, i + 1)
    } else {
        i
    }
}

/// Where skipping whitespace ends: within the text, on no whitespace, with
/// nothing but whitespace behind.
pub proof fn lemma_skip_whitespace_bounds(s: Seq<char>, i: int)
    requires
        0 <= i <= s.len(),
    ensures
        i <= skip_whitespace(s, i) <= s.len(),
        skip_whitespace(s, i) < s.len() ==> !is_whitespace(s[skip_whitespace(s, i)]),
        forall|k: int| i <= k < skip_whitespace(s, i) ==> is_whitespace(#[trigger] s[k]),
    decreases s.len() - i,
{
    if i < s.len() && is_whitespace(s[i]) {
        lemma_skip_whitespace_bounds(s, i + 1);
    }
}

/// Where skipping a token ends: within the text, on whitespace or at the
/// end, with no whitespace behind.
pub proof fn lemma_skip_token_bounds(s: Seq<char>, i: int)
    requires
        0 <= i <= s.len(),
    ensures
        i <= skip_token(s, i) <= s.len(),
        i < s.len() && !is_whitespace(s[i]) ==> i < skip_token(s, i),
        skip_token(s, i) < s.len() ==> is_whitespace(s[skip_token(s, i)]),
        forall|k: int| i <= k < skip_token(s, i) ==> !is_whitespace(#[trigger] s[k]),
    decreases s.len() - i,
{
    if i < s.len() && !is_whitespace(s[i]) {
        lemma_skip_token_bounds(s, i + 1);
    }
}

/// The half-open ranges of the whitespace-separated tokens that start at or
/// after position `i`.
pub open spec fn token_ranges_from(s: Seq<char>, i: int) -> Seq<(int, int)>
    decreases s.len() - i,
    when 0 <= i <= s.len()
    via token_ranges_decreases
{
    let start = skip_whitespace(s, i);
    if start < s.len() {
        let end = skip_token(s, start);
        seq![(start, end)] + token_ranges_from(s, end)
    } else {
        Seq::empty()
    }
}

#[via_fn]
proof fn token_ranges_decreases(s: Seq<char>, i: int) {
    lemma_skip_whitespace_bounds(s, i);
    let start = skip_whitespace(s, i);
    if start < s.len() {
        lemma_skip_token_bounds(s, start);
    }
}

/// The whitespace-separated tokens of `s`: its maximal runs of characters
/// that are not whitespace, in order.
pub open spec fn split_whitespace(s: Seq<char>) -> Seq<Seq<char>> {
    token_ranges_from(s, 0).map_values(|r: (int, int)| s.subrange(r.0, r.1))
}

/// The token ranges of `s` as machine integers; see [`token_ranges_from`].
pub open spec fn widen(r: Seq<(usize, usize)>) -> Seq<(int, int)> {
    r.map_values(|p: (usize, usize)| (p.0 as int, p.1 as int))
}

/// Splits `s` on whitespace and returns the position of each token.
pub fn token_ranges(s: &Vec<char>) -> (r: Vec<(usize, usize)>)
    ensures
        widen(r@) == token_ranges_from(s@, 0),
        forall|k: int| 0 <= k < r.len() ==> (#[trigger] r[k]).0 < r[k].1 <= s.len(),
{
    let n = s.len();
    let mut r: Vec<(usize, usize)> = Vec::new();
    let mut i: usize = 0;
    assert(widen(r@) =~= Seq::<(int, int)>::empty());
    loop
        invariant
            n == s.len(),
            i <= n,
            token_ranges_from(s@, 0) == widen(r@) + token_ranges_from(s@, i as int),
            forall|k: int| 0 <= k < r.len() ==> (#[trigger] r[k]).0 < r[k].1 <= s.len(),
        decreases n - i,
    {
        let ghost i0 = i;
        while i < n && char_is_whitespace(s[i])
            invariant
                n == s.len(),
                i0 <= i <= n,
                skip_whitespace(s@, i0 as int) == skip_whitespace(s@, i as int),
            decreases n - i,
        {
            i = i + 1;
        }
        let start = i;
        if start >= n {
            proof {
                assert(token_ranges_from(s@, i0 as int) =~= Seq::<(int, int)>::empty());
                assert(widen(r@) + Seq::<(int, int)>::empty() =~= widen(r@));
            }
            return r;
        }
        i = i + 1;
        while i < n && !char_is_whitespace(s[i])
            invariant
                n == s.len(),
                start < i <= n,
                skip_token(s@, start as int) == skip_token(s@, i as int),
            decreases n - i,
        {
            i = i + 1;
        }
        proof {
            let rest = token_ranges_from(s@, i as int);
            assert(token_ranges_from(s@, i0 as int) == seq![(start as int, i as int)] + rest);
            assert(widen(r@.push((start, i))) =~= widen(r@) + seq![(start as int, i as int)]);
            assert((widen(r@) + seq![(start as int, i as int)]) + rest =~= widen(r@) + (seq![
                (start as int, i as int),
            ] + rest));
        }
        r.push((start, i));
    }
}

/// `s` without its leading run of `c`.
pub open spec fn trim_start_matches(s: Seq<char>, c: char) -> Seq<char>
    decreases s.len(),
{
    if s.len() > 0 && s[0] == c {
        trim_start_matches(s.drop_first(), c)
    } else {
        s
    }
}

/// `s` without its trailing run of `c`.
pub open spec fn trim_end_matches(s: Seq<char>, c: char) -> Seq<char>
    decreases s.len(),
{
    if s.len() > 0 && s.last() == c {
        trim_end_matches(s.drop_last(), c)
    } else {
        s
    }
}

/// `s` without the runs of `c` at both ends.
pub open spec fn trim_matches(s: Seq<char>, c: char) -> Seq<char> {
    trim_end_matches(trim_start_matches(s, c), c)
}

/// Whether `s` begins with `prefix`.
pub open spec fn has_prefix(s: Seq<char>, prefix: Seq<char>) -> bool {
    prefix.len() <= s.len() && s.subrange(0, prefix.len() as int) == prefix
}

/// `s` without every leading repetition of the non-empty `prefix`.
pub open spec fn strip_prefix_repeated(s: Seq<char>, prefix: Seq<char>) -> Seq<char>
    decreases s.len(),
{
    if prefix.len() > 0 && has_prefix(s, prefix) {
        strip_prefix_repeated(s.skip(prefix.len() as int), prefix)
    } else {
        s
    }
}

/// The part of `s` before the first `c`, or all of `s` where it holds none.
pub open spec fn before_first(s: Seq<char>, c: char) -> Seq<char>
    decreases s.len(),
{
    if s.len() > 0 && s[0] != c {
        seq![s[0]] + before_first(s.drop_first(), c)
    } else {
        Seq::empty()
    }
}

/// Start of `s[lo..hi]` once its leading run of `c` is dropped.
pub fn trim_start_index(s: &Vec<char>, lo: usize, hi: usize, c: char) -> (r: usize)
    requires
        lo <= hi <= s.len(),
    ensures
        lo <= r <= hi,
        s@.subrange(r as int, hi as int) == trim_start_matches(s@.subrange(lo as int, hi as int), c),
{
    let mut i = lo;
    while i < hi && s[i] == c
        invariant
            lo <= i <= hi <= s.len(),
            trim_start_matches(s@.subrange(lo as int, hi as int), c) == trim_start_matches(
                s@.subrange(i as int, hi as int),
                c,
            ),
        decreases hi - i,
    {
        proof {
            assert(s@.subrange(i as int, hi as int).drop_first() =~= s@.subrange(
                i + 1,
                hi as int,
            ));
        }
        i = i + 1;
    }
    i
}

/// End of `s[lo..hi]` once its trailing run of `c` is dropped.
pub fn trim_end_index(s: &Vec<char>, lo: usize, hi: usize, c: char) -> (r: usize)
    requires
        lo <= hi <= s.len(),
    ensures
        lo <= r <= hi,
        s@.subrange(lo as int, r as int) == trim_end_matches(s@.subrange(lo as int, hi as int), c),
{
    let mut i = hi;
    while i > lo && s[i - 1] == c
        invariant
            lo <= i <= hi <= s.len(),
            trim_end_matches(s@.subrange(lo as int, hi as int), c) == trim_end_matches(
                s@.subrange(lo as int, i as int),
                c,
            ),
        decreases i - lo,
    {
        proof {
            assert(s@.subrange(lo as int, i as int).drop_last() =~= s@.subrange(
                lo as int,
                i - 1,
            ));
        }
        i = i - 1;
    }
    i
}

/// Whether `s[lo..hi]` spells `word`.
pub fn range_equals(s: &Vec<char>, lo: usize, hi: usize, word: &Vec<char>) -> (r: bool)
    requires
        lo <= hi <= s.len(),
    ensures
        r == (s@.subrange(lo as int, hi as int) == word@),
{
    if hi - lo != word.len() {
        return false;
    }
    let n = word.len();
    let mut k: usize = 0;
    while k < n
        invariant
            lo <= hi <= s.len(),
            n == word.len(),
            hi - lo == n,
            k <= n,
            forall|j: int| 0 <= j < k ==> s@[lo + j] == word@[j],
        decreases n - k,
    {
        if s[lo + k] != word[k] {
            proof {
                assert(s@.subrange(lo as int, hi as int)[k as int] != word@[k as int]);
            }
            return false;
        }
        k = k + 1;
    }
    proof {
        assert(s@.subrange(lo as int, hi as int) =~= word@);
    }
    true
}

/// Whether `s[lo..hi]` begins with `prefix`.
pub fn range_has_prefix(s: &Vec<char>, lo: usize, hi: usize, prefix: &Vec<char>) -> (r: bool)
    requires
        lo <= hi <= s.len(),
    ensures
        r == has_prefix(s@.subrange(lo as int, hi as int), prefix@),
{
    if hi - lo < prefix.len() {
        return false;
    }
    let r = range_equals(s, lo, lo + prefix.len(), prefix);
    proof {
        assert(s@.subrange(lo as int, hi as int).subrange(0, prefix@.len() as int) =~= s@.subrange(
            lo as int,
            lo + prefix@.len(),
        ));
    }
    r
}

/// Start of `s[lo..hi]` once every leading repetition of `prefix` is dropped.
pub fn strip_prefix_index(s: &Vec<char>, lo: usize, hi: usize, prefix: &Vec<char>) -> (r: usize)
    requires
        lo <= hi <= s.len(),
    ensures
        lo <= r <= hi,
        s@.subrange(r as int, hi as int) == strip_prefix_repeated(
            s@.subrange(lo as int, hi as int),
            prefix@,
        ),
{
    if prefix.len() == 0 {
        return lo;
    }
    let mut i = lo;
    while range_has_prefix(s, i, hi, prefix)
        invariant
            lo <= i <= hi <= s.len(),
            prefix.len() > 0,
            strip_prefix_repeated(s@.subrange(lo as int, hi as int), prefix@)
                == strip_prefix_repeated(s@.subrange(i as int, hi as int), prefix@),
        decreases hi - i,
    {
        proof {
            assert(s@.subrange(i as int, hi as int).skip(prefix@.len() as int) =~= s@.subrange(
                i + prefix@.len(),
                hi as int,
            ));
        }
        i = i + prefix.len();
    }
    i
}

/// End of the part of `s[lo..hi]` that comes before its first `c`.
pub fn before_first_index(s: &Vec<char>, lo: usize, hi: usize, c: char) -> (r: usize)
    requires
        lo <= hi <= s.len(),
    ensures
        lo <= r <= hi,
        s@.subrange(lo as int, r as int) == before_first(s@.subrange(lo as int, hi as int), c),
{
    let mut i = lo;
    while i < hi && s[i] != c
        invariant
            lo <= i <= hi <= s.len(),
            before_first(s@.subrange(lo as int, hi as int), c) == s@.subrange(lo as int, i as int)
                + before_first(s@.subrange(i as int, hi as int), c),
        decreases hi - i,
    {
        proof {
            let cur = s@.subrange(i as int, hi as int);
            assert(cur.drop_first() =~= s@.subrange(i + 1, hi as int));
            assert(s@.subrange(lo as int, i as int) + (seq![cur[0]] + before_first(
                cur.drop_first(),
                c,
            )) =~= s@.subrange(lo as int, i + 1) + before_first(cur.drop_first(), c));
        }
        i = i + 1;
    }
    proof {
        assert(before_first(s@.subrange(i as int, hi as int), c) =~= Seq::<char>::empty());
        assert(s@.subrange(lo as int, i as int) + Seq::<char>::empty() =~= s@.subrange(
            lo as int,
            i as int,
        ));
    }
    i
}

/// Where the line that starts at `i` ends: the position of the next line
/// feed at or after `i`, or the end of `s`.
pub open spec fn line_end(s: Seq<char>, i: int) -> int
    decreases s.len() - i,
{
    if 0 <= i < s.len() && s[i] != '\n' {
        line_end(s, i + 1)
    } else {
        i
    }
}

/// Where a line ends: within the text, on a line feed or at the end.
pub proof fn lemma_line_end_bounds(s: Seq<char>, i: int)
    requires
        0 <= i <= s.len(),
    ensures
        i <= line_end(s, i) <= s.len(),
        line_end(s, i) < s.len() ==> s[line_end(s, i)] == '\n',
    decreases s.len() - i,
{
    if i < s.len() && s[i] != '\n' {
        lemma_line_end_bounds(s, i + 1);
    }
}

/// The range of the line that starts at `start` and is closed at `end`,
/// where `end` is a line feed or the end of `s`: a carriage return just
/// before the line feed belongs to the line ending, not to the line.
pub open spec fn line_range(s: Seq<char>, start: int, end: int) -> (int, int) {
    if end < s.len() && start < end && s[end - 1] == '\r' {
        (start, end - 1)
    } else {
        (start, end)
    }
}

/// The ranges of the lines of `s` that start at or after `i`. Lines end
/// with a line feed, or with a carriage return and a line feed; the last
/// line needs no ending, and an ending is no part of its line.
pub open spec fn line_ranges_from(s: Seq<char>, i: int) -> Seq<(int, int)>
    decreases s.len() - i,
    when 0 <= i <= s.len()
    via line_ranges_decreases
{
    if i < s.len() {
        let end = line_end(s, i);
        seq![line_range(s, i, end)] + line_ranges_from(s, if end < s.len() {
            end + 1
        } else {
            end
        })
    } else {
        Seq::empty()
    }
}

#[via_fn]
proof fn line_ranges_decreases(s: Seq<char>, i: int) {
    lemma_line_end_bounds(s, i);
}

/// The lines of `s`, as `str::lines` yields them.
pub open spec fn lines(s: Seq<char>) -> Seq<Seq<char>> {
    line_ranges_from(s, 0).map_values(|r: (int, int)| s.subrange(r.0, r.1))
}

/// Splits `s` into lines and returns the position of each.
pub fn line_ranges(s: &Vec<char>) -> (r: Vec<(usize, usize)>)
    ensures
        widen(r@) == line_ranges_from(s@, 0),
        forall|k: int| 0 <= k < r.len() ==> (#[trigger] r[k]).0 <= r[k].1 <= s.len(),
{
    let n = s.len();
    let mut r: Vec<(usize, usize)> = Vec::new();
    let mut i: usize = 0;
    assert(widen(r@) =~= Seq::<(int, int)>::empty());
    while i < n
        invariant
            n == s.len(),
            i <= n,
            line_ranges_from(s@, 0) == widen(r@) + line_ranges_from(s@, i as int),
            forall|k: int| 0 <= k < r.len() ==> (#[trigger] r[k]).0 <= r[k].1 <= s.len(),
        decreases n - i,
    {
        let start = i;
        while i < n && s[i] != '\n'
            invariant
                n == s.len(),
                start <= i <= n,
                line_end(s@, start as int) == line_end(s@, i as int),
            decreases n - i,
        {
            i = i + 1;
        }
        let end = i;
        let stop = if end < n && start < end && s[end - 1] == '\r' {
            end - 1
        } else {
            end
        };
        if i < n {
            i = i + 1;
        }
        proof {
            let rest = line_ranges_from(s@, i as int);
            assert(line_ranges_from(s@, start as int) == seq![(start as int, stop as int)] + rest);
            assert(widen(r@.push((start, stop))) =~= widen(r@) + seq![(start as int, stop as int)]);
            assert((widen(r@) + seq![(start as int, stop as int)]) + rest =~= widen(r@) + (seq![
                (start as int, stop as int),
            ] + rest));
        }
        r.push((start, stop));
    }
    proof {
        assert(line_ranges_from(s@, i as int) =~= Seq::<(int, int)>::empty());
        assert(widen(r@) + Seq::<(int, int)>::empty() =~= widen(r@));
    }
    r
}

/// A copy of `s[lo..hi]`.
pub fn copy_range(s: &Vec<char>, lo: usize, hi: usize) -> (r: Vec<char>)
    requires
        lo <= hi <= s.len(),
    ensures
        r@ == s@.subrange(lo as int, hi as int),
{
    let mut r: Vec<char> = Vec::new();
    let mut i = lo;
    while i < hi
        invariant
            lo <= i <= hi <= s.len(),
            r@ == s@.subrange(lo as int, i as int),
        decreases hi - i,
    {
        r.push(s[i]);
        i = i + 1;
    }
    r
}

/// Whether `a` and `b` hold the same characters.
pub fn same_text(a: &str, b: &str) -> (r: bool)
    ensures
        r == (a@ == b@),
{
    let x = chars_of(a);
    let y = chars_of(b);
    let r = range_equals(&x, 0, x.len(), &y);
    proof {
        assert(x@.subrange(0, x.len() as int) =~= x@);
    }
    r
}

/// Whether `a` comes before `b` where strings are ordered as `str` orders
/// them: character by character, by code point, a proper prefix first.
pub open spec fn text_before(a: Seq<char>, b: Seq<char>) -> bool
    decreases a.len(),
{
    if b.len() == 0 {
        false
    } else if a.len() == 0 {
        true
    } else if a[0] != b[0] {
        a[0] < b[0]
    } else {
        text_before(a.drop_first(), b.drop_first())
    }
}

/// No string comes before itself.
pub proof fn lemma_text_before_irreflexive(a: Seq<char>)
    ensures
        !text_before(a, a),
    decreases a.len(),
{
    if a.len() > 0 {
        lemma_text_before_irreflexive(a.drop_first());
    }
}

/// Of two different strings exactly one comes before the other.
pub proof fn lemma_text_before_total(a: Seq<char>, b: Seq<char>)
    ensures
        a == b || text_before(a, b) || text_before(b, a),
        !(text_before(a, b) && text_before(b, a)),
    decreases a.len(),
{
    if a.len() == 0 || b.len() == 0 {
        if a.len() == 0 && b.len() == 0 {
            assert(a =~= b);
        }
    } else if a[0] == b[0] {
        lemma_text_before_total(a.drop_first(), b.drop_first());
        if a.drop_first() == b.drop_first() {
            assert(a =~= seq![a[0]] + a.drop_first());
            assert(b =~= seq![b[0]] + b.drop_first());
        }
    }
}

/// The order of strings is transitive.
pub proof fn lemma_text_before_transitive(a: Seq<char>, b: Seq<char>, c: Seq<char>)
    requires
        text_before(a, b),
        text_before(b, c),
    ensures
        text_before(a, c),
    decreases a.len(),
{
    if a.len() > 0 && a[0] == b[0] && b[0] == c[0] {
        lemma_text_before_transitive(a.drop_first(), b.drop_first(), c.drop_first());
    }
}

/// Whether `a` comes before `b` in the order of [`text_before`].
pub fn text_less(a: &str, b: &str) -> (r: bool)
    ensures
        r == text_before(a@, b@),
{
    let x = chars_of(a);
    let y = chars_of(b);
    let mut i: usize = 0;
    proof {
        assert(x@.skip(0) =~= x@);
        assert(y@.skip(0) =~= y@);
    }
    while i < x.len() && i < y.len()
        invariant
            x@ == a@,
            y@ == b@,
            i <= x.len(),
            i <= y.len(),
            text_before(a@, b@) == text_before(x@.skip(i as int), y@.skip(i as int)),
        decreases x.len() - i,
    {
        proof {
            assert(x@.skip(i as int).drop_first() =~= x@.skip(i + 1));
            assert(y@.skip(i as int).drop_first() =~= y@.skip(i + 1));
        }
        if x[i] != y[i] {
            return x[i] < y[i];
        }
        i = i + 1;
    }
    i < y.len()
}

/// The lines of `content`, each as a string of its own.
pub fn split_lines(content: &str) -> (r: Vec<String>)
    ensures
        texts(r@) == lines(content@),
{
    let chars = chars_of(content);
    let ranges = line_ranges(&chars);
    let mut r: Vec<String> = Vec::new();
    let mut k: usize = 0;
    proof {
        assert(lines(content@).len() == ranges@.len());
        assert(texts(r@) =~= lines(content@).take(0));
    }
    while k < ranges.len()
        invariant
            chars@ == content@,
            widen(ranges@) == line_ranges_from(chars@, 0),
            forall|j: int| 0 <= j < ranges.len() ==> (#[trigger] ranges[j]).0 <= ranges[j].1
                <= chars.len(),
            lines(content@).len() == ranges@.len(),
            k <= ranges.len(),
            texts(r@) == lines(content@).take(k as int),
        decreases ranges.len() - k,
    {
        let (lo, hi) = ranges[k];
        let line = String::from_str(content.substring_char(lo, hi));
        proof {
            assert(line_ranges_from(chars@, 0)[k as int] == widen(ranges@)[k as int]);
            assert(lines(content@)[k as int] == line@);
            assert(texts(r@.push(line)) =~= texts(r@).push(line@));
            assert(lines(content@).take(k as int).push(line@) =~= lines(content@).take(k + 1));
        }
        r.push(line);
        k = k + 1;
    }
    proof {
        assert(lines(content@).take(k as int) =~= lines(content@));
    }
    r
}

/// `s` without its leading whitespace.
pub open spec fn trim_start(s: Seq<char>) -> Seq<char>
    decreases s.len(),
{
    if s.len() > 0 && is_whitespace(s[0]) {
        trim_start(s.drop_first())
    } else {
        s
    }
}

/// `s` without its trailing whitespace.
pub open spec fn trim_end(s: Seq<char>) -> Seq<char>
    decreases s.len(),
{
    if s.len() > 0 && is_whitespace(s.last()) {
        trim_end(s.drop_last())
    } else {
        s
    }
}

/// `s` without the whitespace at both ends.
pub open spec fn trimmed(s: Seq<char>) -> Seq<char> {
    trim_end(trim_start(s))
}

/// `s` without the whitespace at both ends.
pub fn trim(s: &str) -> (r: &str)
    ensures
        r@ == trimmed(s@),
{
    let chars = chars_of(s);
    let n = chars.len();
    let mut lo: usize = 0;
    proof {
        assert(chars@.subrange(0, n as int) =~= s@);
    }
    while lo < n && char_is_whitespace(chars[lo])
        invariant
            n == chars.len(),
            chars@ == s@,
            lo <= n,
            trim_start(s@) == trim_start(chars@.subrange(lo as int, n as int)),
        decreases n - lo,
    {
        proof {
            assert(chars@.subrange(lo as int, n as int).drop_first() =~= chars@.subrange(
                lo + 1,
                n as int,
            ));
        }
        lo = lo + 1;
    }
    let mut hi: usize = n;
    while hi > lo && char_is_whitespace(chars[hi - 1])
        invariant
            n == chars.len(),
            chars@ == s@,
            lo <= hi <= n,
            trim_start(s@) == chars@.subrange(lo as int, n as int),
            trimmed(s@) == trim_end(chars@.subrange(lo as int, hi as int)),
        decreases hi - lo,
    {
        proof {
            assert(chars@.subrange(lo as int, hi as int).drop_last() =~= chars@.subrange(
                lo as int,
                hi - 1,
            ));
        }
        hi = hi - 1;
    }
    s.substring_char(lo, hi)
}

/// Where `name` stands, or would stand, in `list`: at the first text that
/// does not come before it.
pub open spec fn text_slot(list: Seq<Seq<char>>, name: Seq<char>) -> int
    decreases list.len(),
{
    if list.len() > 0 && text_before(list[0], name) {
        1 + text_slot(list.drop_first(), name)
    } else {
        0
    }
}

/// `list` with `name` in it: put at its slot where it is missing.
pub open spec fn with_text(list: Seq<Seq<char>>, name: Seq<char>) -> Seq<Seq<char>> {
    let k = text_slot(list, name);
    if k < list.len() && list[k] == name {
        list
    } else {
        list.insert(k, name)
    }
}

/// The texts of `items` as an ordered set: each once, in ascending order.
pub open spec fn ordered_set_of(items: Seq<Seq<char>>) -> Seq<Seq<char>>
    decreases items.len(),
{
    if items.len() == 0 {
        Seq::empty()
    } else {
        with_text(ordered_set_of(items.drop_last()), items.last())
    }
}

/// Puts `name` into the ordered set `list`; see [`with_text`].
pub fn insert_text(list: &mut Vec<String>, name: String)
    ensures
        texts(final(list)@) == with_text(texts(old(list)@), name@),
{
    let ghost before = texts(list@);
    let mut k: usize = 0;
    proof {
        assert(before.skip(0) =~= before);
    }
    while k < list.len() && text_less(list[k].as_str(), name.as_str())
        invariant
            k <= list.len(),
            before == texts(list@),
            text_slot(before, name@) == k + text_slot(before.skip(k as int), name@),
        decreases list.len() - k,
    {
        proof {
            assert(before.skip(k as int)[0] == before[k as int]);
            assert(before.skip(k as int).drop_first() =~= before.skip(k + 1));
        }
        k = k + 1;
    }
    proof {
        if k < list.len() {
            assert(before.skip(k as int)[0] == before[k as int]);
        }
        assert(text_slot(before, name@) == k);
    }
    if k < list.len() && same_text(list[k].as_str(), name.as_str()) {
    } else {
        list.insert(k, name);
        proof {
            assert(texts(list@) =~= with_text(before, name@));
        }
    }
}

/// The texts of `items` as an ordered set; see [`ordered_set_of`].
pub fn ordered_set(items: &Vec<String>) -> (r: Vec<String>)
    ensures
        texts(r@) == ordered_set_of(texts(items@)),
{
    let ghost all = texts(items@);
    let mut r: Vec<String> = Vec::new();
    let mut i: usize = 0;
    proof {
        assert(all.take(0) =~= Seq::<Seq<char>>::empty());
        assert(texts(r@) =~= Seq::<Seq<char>>::empty());
    }
    while i < items.len()
        invariant
            i <= items.len(),
            all == texts(items@),
            texts(r@) == ordered_set_of(all.take(i as int)),
        decreases items.len() - i,
    {
        proof {
            assert(all.take(i + 1).drop_last() =~= all.take(i as int));
            assert(all.take(i + 1).last() == items[i as int]@);
        }
        insert_text(&mut r, items[i].clone());
        i = i + 1;
    }
    proof {
        assert(all.take(i as int) =~= all);
    }
    r
}

/// Whether `list` holds the text `s`.
pub fn contains_text(list: &Vec<String>, s: &str) -> (r: bool)
    ensures
        r == texts(list@).contains(s@),
{
    let mut i: usize = 0;
    while i < list.len()
        invariant
            i <= list.len(),
            forall|j: int| 0 <= j < i ==> texts(list@)[j] != s@,
        decreases list.len() - i,
    {
        if same_text(list[i].as_str(), s) {
            proof {
                assert(texts(list@)[i as int] == s@);
            }
            return true;
        }
        i = i + 1;
    }
    false
}

/// A copy of a list of strings.
pub fn clone_strings(v: &Vec<String>) -> (r: Vec<String>)
    ensures
        r@ == v@,
{
    let mut r: Vec<String> = Vec::new();
    let mut i: usize = 0;
    while i < v.len()
        invariant
            i <= v.len(),
            r@ == v@.take(i as int),
        decreases v.len() - i,
    {
        r.push(v[i].clone());
        proof {
            assert(v@.take(i as int).push(v@[i as int]) =~= v@.take(i + 1));
        }
        i = i + 1;
    }
    proof {
        assert(v@.take(v.len() as int) =~= v@);
    }
    r
}

} // verus!
