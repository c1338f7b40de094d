//! Character sequences as the tool reports use them: white space, trimming,
//! templates with one placeholder, and searching.

use vstd::prelude::*;

verus! {

/// Whether `c` is white space: the characters that carry the Unicode property
/// `White_Space`.
pub open spec fn is_blank(c: char) -> bool {
    let n = c as u32;
    ||| 0x09 <= n <= 0x0D
    ||| n == 0x20
    ||| n == 0x85
    ||| n == 0xA0
    ||| n == 0x1680
    ||| 0x2000 <= n <= 0x200A
    ||| n == 0x2028
    ||| n == 0x2029
    ||| n == 0x202F
    ||| n == 0x205F
    ||| n == 0x3000
}

/// `s` without its leading white space.
pub open spec fn trim_start(s: Seq<char>) -> Seq<char>
    decreases s.len(),
{
    if s.len() > 0 && is_blank(s[0]) {
        trim_start(s.drop_first())
    } else {
        s
    }
}

/// `s` without its trailing white space.
pub open spec fn trim_end(s: Seq<char>) -> Seq<char>
    decreases s.len(),
{
    if s.len() > 0 && is_blank(s.last()) {
        trim_end(s.drop_last())
    } else {
        s
    }
}

/// `s` without the white space at either end.
pub open spec fn trim(s: Seq<char>) -> Seq<char> {
    trim_end(trim_start(s))
}

/// What the placeholder of the template `prefix{}` captures in `text`: all that
/// follows `prefix`, provided that it is not empty and stays on one line.
pub open spec fn captured(prefix: Seq<char>, text: Seq<char>) -> Option<Seq<char>> {
    if prefix.is_prefix_of(text) && prefix.len() < text.len() && !text.skip(
        prefix.len() as int,
    ).contains('\n') {
        Some(text.skip(prefix.len() as int))
    } else {
        None
    }
}

/// The value that a line carries under the template `prefix{}`: the line is
/// trimmed, matched, and what the placeholder captured is trimmed again.
pub open spec fn labelled_value(prefix: Seq<char>, line: Seq<char>) -> Option<Seq<char>> {
    match captured(prefix, trim(line)) {
        Some(v) => Some(trim(v)),
        None => None,
    }
}

/// Whether `x` can stand for a value in a line: it is not empty, has no white
/// space at either end, and stays on one line.
pub open spec fn is_value(x: Seq<char>) -> bool {
    x.len() > 0 && !is_blank(x.first()) && !is_blank(x.last()) && !x.contains('\n')
}

/// Whether `needle` stands in `text` at index `i`.
pub open spec fn occurs_at(text: Seq<char>, needle: Seq<char>, i: int) -> bool {
    0 <= i && i + needle.len() <= text.len() && text.subrange(i, i + needle.len()) == needle
}

/// Whether `needle` stands somewhere in `text`.
pub open spec fn occurs_in(text: Seq<char>, needle: Seq<char>) -> bool {
    exists|i: int| occurs_at(text, needle, i)
}

/// What follows the last `sep` in `text`; all of `text` where it holds none.
pub open spec fn last_segment(text: Seq<char>, sep: char) -> Seq<char>
    decreases text.len(),
{
    if text.len() == 0 || text.last() == sep {
        Seq::empty()
    } else {
        last_segment(text.drop_last(), sep).push(text.last())
    }
}

/// Trimming takes nothing from a sequence without white space at its ends.
pub proof fn lemma_trim_keeps(s: Seq<char>)
    requires
        s.len() == 0 || (!is_blank(s.first()) && !is_blank(s.last())),
    ensures
        trim(s) == s,
{
}

/// What is left of `s` without its leading white space starts at the first
/// character of `s` that is no white space, and is the rest of `s` from there.
pub proof fn lemma_trim_start(s: Seq<char>) -> (k: int)
    ensures
        0 <= k <= s.len(),
        trim_start(s) == s.skip(k),
        forall|j: int| 0 <= j < k ==> is_blank(s[j]),
        k < s.len() ==> !is_blank(s[k]),
    decreases s.len(),
{
    if s.len() > 0 && is_blank(s[0]) {
        let k = lemma_trim_start(s.drop_first());
        assert(s.drop_first().skip(k) =~= s.skip(k + 1));
        assert forall|j: int| 0 <= j < k + 1 implies is_blank(s[j]) by {
            if j > 0 {
                assert(s[j] == s.drop_first()[j - 1]);
            }
        }
        k + 1
    } else {
        assert(s.skip(0) =~= s);
        0
    }
}

/// What is left of `s` without its trailing white space ends with the last
/// character of `s` that is no white space, and is what comes before in `s`.
pub proof fn lemma_trim_end(s: Seq<char>) -> (k: int)
    ensures
        0 <= k <= s.len(),
        trim_end(s) == s.take(k),
        forall|j: int| k <= j < s.len() ==> is_blank(s[j]),
        k > 0 ==> !is_blank(s[k - 1]),
    decreases s.len(),
{
    if s.len() > 0 && is_blank(s.last()) {
        let k = lemma_trim_end(s.drop_last());
        assert(s.drop_last().take(k) =~= s.take(k));
        assert forall|j: int| k <= j < s.len() implies is_blank(s[j]) by {
            if j < s.len() - 1 {
                assert(s[j] == s.drop_last()[j]);
            }
        }
        k
    } else {
        assert(s.take(s.len() as int) =~= s);
        s.len() as int
    }
}

/// What a line carries under a template can stand for a value in a line: it
/// is not empty, has no white space at either end, and stays on one line.
pub proof fn lemma_labelled_is_value(prefix: Seq<char>, line: Seq<char>)
    ensures
        labelled_value(prefix, line) matches Some(v) ==> is_value(v),
{
    if labelled_value(prefix, line) is Some {
        let a = lemma_trim_start(line);
        let b = lemma_trim_end(line.skip(a));
        let t = trim(line);
        let r = t.skip(prefix.len() as int);
        assert(r.last() == t.last());
        assert(!is_blank(r.last()));
        let c = lemma_trim_start(r);
        let v = r.skip(c);
        assert(v.last() == r.last());
        lemma_trim_keeps(v);
        assert forall|i: int| 0 <= i < v.len() implies v[i] != '\n' by {
            assert(r.contains(r[c + i]));
        }
    }
}

/// A line that is made of a label and a value carries that value under the
/// label's template.
pub proof fn lemma_labelled_value(label: Seq<char>, x: Seq<char>)
    requires
        label.len() > 0,
        !is_blank(label.first()),
        is_value(x),
    ensures
        labelled_value(label, label + x) == Some(x),
{
    let line = label + x;
    assert(line.first() == label.first());
    assert(line.last() == x.last());
    lemma_trim_keeps(line);
    assert(line.subrange(0, label.len() as int) =~= label);
    assert(line.skip(label.len() as int) =~= x);
    lemma_trim_keeps(x);
}

/// Decides [`is_blank`].
pub fn blank(c: char) -> (r: bool)
    ensures
        r == is_blank(c),
{
    let n: u32 = c as u32;
    (0x09 <= n && n <= 0x0D) || n == 0x20 || n == 0x85 || n == 0xA0 || n == 0x1680 || (0x2000 <= n
        && n <= 0x200A) || n == 0x2028 || n == 0x2029 || n == 0x202F || n == 0x205F || n == 0x3000
}

/// The characters of `s`, one by one.
pub fn chars_of(s: &str) -> (v: Vec<char>)
    ensures
        v@ == s@,
{
    let mut v: Vec<char> = Vec::new();
    for c in it: s.chars()
        invariant
            v@ == it.seq().take(it.index() as int),
            it.seq() == s@,
    {
        v.push(c);
    }
    v
}

/// The bounds of `text[from..to]` once trimmed.
pub(crate) fn trim_range(text: &Vec<char>, from: usize, to: usize) -> (r: (usize, usize))
    requires
        from <= to <= text.len(),
    ensures
        from <= r.0 <= r.1 <= to,
        text@.subrange(r.0 as int, r.1 as int) == trim(text@.subrange(from as int, to as int)),
{
    let mut a: usize = from;
    while a < to && blank(text[a])
        invariant
            from <= a <= to <= text.len(),
            trim_start(text@.subrange(from as int, to as int)) == trim_start(
                text@.subrange(a as int, to as int),
            ),
        decreases to - a,
    {
        assert(text@.subrange(a as int, to as int).drop_first() == text@.subrange(
            a + 1,
            to as int,
        ));
        a = a + 1;
    }
    let mut b: usize = to;
    while a < b && blank(text[b - 1])
        invariant
            a <= b <= to <= text.len(),
            trim_end(text@.subrange(a as int, to as int)) == trim_end(
                text@.subrange(a as int, b as int),
            ),
        decreases b - a,
    {
        assert(text@.subrange(a as int, b as int).drop_last() == text@.subrange(
            a as int,
            b - 1,
        ));
        b = b - 1;
    }
    (a, b)
}

/// Whether `text[from..to]` begins with `prefix`.
fn begins_with(text: &Vec<char>, from: usize, to: usize, prefix: &Vec<char>) -> (r: bool)
    requires
        from <= to <= text.len(),
    ensures
        r == prefix@.is_prefix_of(text@.subrange(from as int, to as int)),
{
    let n: usize = prefix.len();
    if n > to - from {
        return false;
    }
    let mut k: usize = 0;
    while k < n
        invariant
            k <= n <= to - from,
            from <= to <= text.len(),
            n == prefix.len(),
            forall|j: int| 0 <= j < k ==> text@[from + j] == prefix@[j],
        decreases n - k,
    {
        if text[from + k] != prefix[k] {
            assert(text@.subrange(from as int, to as int).subrange(0, n as int)[k as int]
                != prefix@[k as int]);
            return false;
        }
        k = k + 1;
    }
    assert(prefix@ =~= text@.subrange(from as int, to as int).subrange(0, n as int));
    true
}

/// Where in `text[from..to]` the placeholder of `prefix{}` starts to capture,
/// if the template matches.
#[verifier::loop_isolation(false)]
pub(crate) fn capture_start(text: &Vec<char>, from: usize, to: usize, prefix: &Vec<char>) -> (r:
    Option<usize>)
    requires
        from <= to <= text.len(),
    ensures
        match r {
            Some(k) => from <= k < to && captured(prefix@, text@.subrange(from as int, to as int))
                == Some(text@.subrange(k as int, to as int)),
            None => captured(prefix@, text@.subrange(from as int, to as int)) is None,
        },
{
    if !begins_with(text, from, to, prefix) {
        return None;
    }
    let start: usize = from + prefix.len();
    if start >= to {
        return None;
    }
    let ghost whole = text@.subrange(from as int, to as int);
    let ghost rest = whole.skip(prefix.len() as int);
    assert(rest =~= text@.subrange(start as int, to as int));
    let mut k: usize = start;
    while k < to
        invariant
            start <= k <= to <= text.len(),
            forall|j: int| start <= j < k ==> text@[j] != '\n',
        decreases to - k,
    {
        if text[k] == '\n' {
            assert(rest[k - start] == '\n');
            return None;
        }
        k = k + 1;
    }
    Some(start)
}

/// The value that `line` carries under the template `prefix{}`.
pub fn labelled(prefix: &str, line: &str) -> (r: Option<String>)
    ensures
        match r {
            Some(v) => labelled_value(prefix@, line@) == Some(v@),
            None => labelled_value(prefix@, line@) is None,
        },
{
    let text = chars_of(line);
    let head = chars_of(prefix);
    assert(text@.subrange(0, text.len() as int) =~= text@);
    let (a, b) = trim_range(&text, 0, text.len());
    match capture_start(&text, a, b, &head) {
        None => None,
        Some(k) => {
            let (c, d) = trim_range(&text, k, b);
            Some(line.substring_char(c, d).to_owned())
        },
    }
}

/// Whether `pattern` stands somewhere in `haystack`.
#[verifier::loop_isolation(false)]
pub fn mentions(haystack: &str, pattern: &str) -> (r: bool)
    ensures
        r == occurs_in(haystack@, pattern@),
{
    let text = chars_of(haystack);
    let needle = chars_of(pattern);
    let n: usize = text.len();
    let m: usize = needle.len();
    if m > n {
        return false;
    }
    let mut i: usize = 0;
    while i <= n - m
        invariant
            m <= n,
            n == text.len(),
            m == needle.len(),
            i <= n - m + 1,
            forall|j: int| 0 <= j < i ==> !occurs_at(text@, needle@, j),
        decreases n - m + 1 - i,
    {
        let mut k: usize = 0;
        while k < m && text[i + k] == needle[k]
            invariant
                k <= m,
                i + m <= n,
                n == text.len(),
                m == needle.len(),
                forall|t: int| 0 <= t < k ==> text@[i + t] == needle@[t],
            decreases m - k,
        {
            k = k + 1;
        }
        if k == m {
            assert(text@.subrange(i as int, i + m) =~= needle@);
            assert(occurs_at(text@, needle@, i as int));
            return true;
        }
        assert(text@.subrange(i as int, i + m)[k as int] != needle@[k as int]);
        i = i + 1;
    }
    false
}

/// `text.skip(k)` is the last segment of `text` where no `sep` stands from `k`
/// on and one stands just before `k`, or `k` is 0.
pub proof fn lemma_last_segment(text: Seq<char>, sep: char, k: int)
    requires
        0 <= k <= text.len(),
        forall|j: int| k <= j < text.len() ==> text[j] != sep,
        k == 0 || text[k - 1] == sep,
    ensures
        last_segment(text, sep) == text.skip(k),
    decreases text.len(),
{
    if text.len() == 0 {
        assert(text.skip(k) =~= Seq::empty());
    } else if k == text.len() {
        assert(text.skip(k) =~= Seq::empty());
    } else {
        lemma_last_segment(text.drop_last(), sep, k);
        assert(text.drop_last().skip(k).push(text.last()) =~= text.skip(k));
    }
}

/// Where the last segment of `text` starts.
pub(crate) fn last_segment_start(text: &Vec<char>, sep: char) -> (k: usize)
    ensures
        k <= text.len(),
        text@.skip(k as int) == last_segment(text@, sep),
{
    let mut k: usize = text.len();
    while k > 0 && text[k - 1] != sep
        invariant
            k <= text.len(),
            forall|j: int| k <= j < text.len() ==> text@[j] != sep,
        decreases k,
    {
        k = k - 1;
    }
    proof {
        lemma_last_segment(text@, sep, k as int);
    }
    k
}

} // verus!
