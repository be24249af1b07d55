//! Character-level building blocks of the wire format: whitespace, CRLF line
//! framing, whitespace-separated tokens and trimming.
use vstd::prelude::*;

verus! {

/// Unicode `White_Space`, the class that `char::is_whitespace` tests.
pub open spec fn is_ws(c: char) -> bool {
    ||| ('\u{9}' <= c && c <= '\u{d}')
    ||| c == ' '
    ||| c == '\u{85}'
    ||| c == '\u{a0}'
    ||| c == '\u{1680}'
    ||| ('\u{2000}' <= c && c <= '\u{200a}')
    ||| c == '\u{2028}'
    ||| c == '\u{2029}'
    ||| c == '\u{202f}'
    ||| c == '\u{205f}'
    ||| c == '\u{3000}'
}

pub fn is_whitespace(c: char) -> (r: bool)
    ensures
        r == is_ws(c),
{
    ('\u{9}' <= c && c <= '\u{d}') || c == ' ' || c == '\u{85}' || c == '\u{a0}' || c == '\u{1680}'
        || ('\u{2000}' <= c && c <= '\u{200a}') || c == '\u{2028}' || c == '\u{2029}' || c
        == '\u{202f}' || c == '\u{205f}' || c == '\u{3000}'
}

/// The characters of `s`, in order.
pub fn chars_of(s: &str) -> (r: Vec<char>)
    ensures
        r@ == s@,
{
    let mut v: Vec<char> = Vec::new();
    for c in it: s.chars()
        invariant
            v@ == it.seq().take(it.index() as int),
    {
        v.push(c);
    }
    v
}


/// `t[i]`, `t[i + 1]` is a CRLF.
pub open spec fn crlf_at(t: Seq<char>, i: int) -> bool {
    0 <= i && i + 1 < t.len() && t[i] == '\r' && t[i + 1] == '\n'
}

/// Start of the first CRLF at or after `i`, or `t.len()` where none follows.
pub open spec fn next_crlf(t: Seq<char>, i: int) -> int
    decreases t.len() - i,
{
    if i + 1 >= t.len() {
        t.len() as int
    } else if crlf_at(t, i) {
        i
    } else {
        next_crlf(t, i + 1)
    }
}

/// First index at or after `i` that holds no whitespace, or `s.len()`.
pub open spec fn skip_ws(s: Seq<char>, i: int) -> int
    decreases s.len() - i,
{
    if i >= s.len() {
        s.len() as int
    } else if is_ws(s[i]) {
        skip_ws(s, i + 1)
    } else {
        i
    }
}

/// First index at or after `i` that holds whitespace, or `s.len()`.
pub open spec fn token_end(s: Seq<char>, i: int) -> int
    decreases s.len() - i,
{
    if i >= s.len() {
        s.len() as int
    } else if is_ws(s[i]) {
        i
    } else {
        token_end(s, i + 1)
    }
}

/// First index at or after `i` that holds `c`, or `s.len()`.
pub open spec fn index_of(s: Seq<char>, i: int, c: char) -> int
    decreases s.len() - i,
{
    if i >= s.len() {
        s.len() as int
    } else if s[i] == c {
        i
    } else {
        index_of(s, i + 1, c)
    }
}

pub proof fn lemma_next_crlf_bounds(t: Seq<char>, i: int)
    requires
        0 <= i <= t.len(),
    ensures
        i <= next_crlf(t, i) <= t.len(),
        next_crlf(t, i) < t.len() ==> crlf_at(t, next_crlf(t, i)),
    decreases t.len() - i,
{
    if i + 1 < t.len() && !crlf_at(t, i) {
        lemma_next_crlf_bounds(t, i + 1);
    }
}

pub proof fn lemma_scan_bounds(s: Seq<char>, i: int)
    requires
        0 <= i <= s.len(),
    ensures
        i <= skip_ws(s, i) <= s.len(),
        i <= token_end(s, i) <= s.len(),
        skip_ws(s, i) < s.len() ==> i < token_end(s, skip_ws(s, i)),
        skip_ws(s, i) < s.len() ==> !is_ws(s[skip_ws(s, i)]),
    decreases s.len() - i,
{
    if i < s.len() {
        lemma_scan_bounds(s, i + 1);
        if !is_ws(s[i]) {
            assert(token_end(s, i) == token_end(s, i + 1));
        }
    }
}

/// `next_crlf` from `i` is `j` where no carriage return lies in `t[i..j)` and
/// a CRLF (or the end of `t`) stands at `j`.
pub proof fn lemma_next_crlf_at(t: Seq<char>, i: int, j: int)
    requires
        0 <= i <= j <= t.len(),
        forall|k: int| i <= k < j ==> t[k] != '\r',
        j == t.len() || crlf_at(t, j),
    ensures
        next_crlf(t, i) == j,
    decreases j - i,
{
    if i < j {
        lemma_next_crlf_at(t, i + 1, j);
    }
}

/// `skip_ws` from `i` is `j` where `s[i..j)` is whitespace and `s[j]` is not.
pub proof fn lemma_skip_ws_at(s: Seq<char>, i: int, j: int)
    requires
        0 <= i <= j <= s.len(),
        forall|k: int| i <= k < j ==> is_ws(s[k]),
        j == s.len() || !is_ws(s[j]),
    ensures
        skip_ws(s, i) == j,
    decreases j - i,
{
    if i < j {
        lemma_skip_ws_at(s, i + 1, j);
    }
}

/// `token_end` from `i` is `j` where `s[i..j)` holds no whitespace and `s[j]`
/// is whitespace (or the end).
pub proof fn lemma_token_end_at(s: Seq<char>, i: int, j: int)
    requires
        0 <= i <= j <= s.len(),
        forall|k: int| i <= k < j ==> !is_ws(s[k]),
        j == s.len() || is_ws(s[j]),
    ensures
        token_end(s, i) == j,
    decreases j - i,
{
    if i < j {
        lemma_token_end_at(s, i + 1, j);
    }
}

/// `index_of` from `i` is `j` where `s[i..j)` holds no `c` and `s[j]` is `c`.
pub proof fn lemma_index_of_at(s: Seq<char>, i: int, j: int, c: char)
    requires
        0 <= i <= j < s.len(),
        forall|k: int| i <= k < j ==> s[k] != c,
        s[j] == c,
    ensures
        index_of(s, i, c) == j,
    decreases j - i,
{
    if i < j {
        lemma_index_of_at(s, i + 1, j, c);
    }
}

/// A sequence that starts and ends with non-whitespace is its own trim; so
/// is it after leading whitespace is trimmed from `w + s`.
pub proof fn lemma_trim_plain(w: Seq<char>, s: Seq<char>)
    requires
        s.len() > 0,
        !is_ws(s[0]),
        !is_ws(s.last()),
        forall|k: int| 0 <= k < w.len() ==> is_ws(w[k]),
    ensures
        trim(w + s) == s,
{
    let ws = w + s;
    lemma_skip_ws_at(ws, 0, w.len() as int);
    assert(rskip_ws(ws, ws.len() as int, w.len() as int) == ws.len());
    assert(ws.subrange(w.len() as int, ws.len() as int) =~= s);
}

/// The maximal runs of non-whitespace in `s[i..]`, in order.
pub open spec fn words_from(s: Seq<char>, i: int) -> Seq<Seq<char>>
    decreases s.len() - i,
{
    if i < 0 || i >= s.len() || skip_ws(s, i) >= s.len() {
        seq![]
    } else {
        proof {
            lemma_scan_bounds(s, i);
            lemma_scan_bounds(s, skip_ws(s, i));
        }
        let a = skip_ws(s, i);
        let b = token_end(s, a);
        seq![s.subrange(a, b)] + words_from(s, b)
    }
}

/// The whitespace-separated tokens of `s`, as `str::split_whitespace` yields them.
pub open spec fn words(s: Seq<char>) -> Seq<Seq<char>> {
    words_from(s, 0)
}

/// Last index at or below `j`, and above `lo`, that follows a non-whitespace
/// character, or `lo`.
pub open spec fn rskip_ws(s: Seq<char>, j: int, lo: int) -> int
    decreases j - lo,
{
    if j <= lo {
        lo
    } else if is_ws(s[j - 1]) {
        rskip_ws(s, j - 1, lo)
    } else {
        j
    }
}

/// `s` without its leading and trailing whitespace, as `str::trim` gives it.
pub open spec fn trim(s: Seq<char>) -> Seq<char> {
    let a = skip_ws(s, 0);
    s.subrange(a, rskip_ws(s, s.len() as int, a))
}

/// Index of the first CRLF at or after `from`, or `t.len()`.
pub fn find_crlf(t: &Vec<char>, from: usize) -> (r: usize)
    requires
        from <= t.len(),
    ensures
        r == next_crlf(t@, from as int),
{
    let mut i: usize = from;
    while t.len() - i >= 2
        invariant
            from <= i <= t.len(),
            next_crlf(t@, i as int) == next_crlf(t@, from as int),
        decreases t.len() - i,
    {
        if t[i] == '\r' && t[i + 1] == '\n' {
            return i;
        }
        i = i + 1;
    }
    t.len()
}

/// Index of the first `c` in `t[from..to]`, or `to`.
pub fn find_char(t: &Vec<char>, from: usize, to: usize, c: char) -> (r: usize)
    requires
        from <= to <= t.len(),
    ensures
        from <= r <= to,
        r - from == index_of(t@.subrange(from as int, to as int), 0, c),
{
    let ghost s = t@.subrange(from as int, to as int);
    let mut i: usize = from;
    while i < to
        invariant
            from <= i <= to <= t.len(),
            s == t@.subrange(from as int, to as int),
            index_of(s, i - from, c) == index_of(s, 0, c),
        decreases to - i,
    {
        assert(s[i - from] == t@[i as int]);
        if t[i] == c {
            return i;
        }
        i = i + 1;
    }
    to
}

/// Bounds of `trim(t[from..to])` within `t`.
pub fn trim_range(t: &Vec<char>, from: usize, to: usize) -> (r: (usize, usize))
    requires
        from <= to <= t.len(),
    ensures
        from <= r.0 <= r.1 <= to,
        t@.subrange(r.0 as int, r.1 as int) == trim(t@.subrange(from as int, to as int)),
{
    let ghost s = t@.subrange(from as int, to as int);
    let mut a: usize = from;
    while a < to && is_whitespace(t[a])
        invariant
            from <= a <= to <= t.len(),
            s == t@.subrange(from as int, to as int),
            skip_ws(s, a - from) == skip_ws(s, 0),
        decreases to - a,
    {
        assert(s[a - from] == t@[a as int]);
        a = a + 1;
    }
    let mut b: usize = to;
    while b > a && is_whitespace(t[b - 1])
        invariant
            from <= a <= b <= to <= t.len(),
            s == t@.subrange(from as int, to as int),
            skip_ws(s, 0) == a - from,
            rskip_ws(s, b - from, a - from) == rskip_ws(s, s.len() as int, a - from),
        decreases b - a,
    {
        assert(s[b - 1 - from] == t@[b - 1]);
        b = b - 1;
    }
    assert(t@.subrange(a as int, b as int) =~= s.subrange(a - from, b - from));
    (a, b)
}

/// Bounds of the whitespace-separated tokens of `t`, in order.
#[verifier::loop_isolation(false)]
pub fn split_words(t: &Vec<char>) -> (r: Vec<(usize, usize)>)
    ensures
        r.len() == words(t@).len(),
        forall|k: int| 0 <= k < r.len() ==> (r[k].0 <= r[k].1 && r[k].1 <= t.len()),
        forall|k: int|
            0 <= k < r.len() ==> #[trigger] words(t@)[k] == t@.subrange(
                r[k].0 as int,
                r[k].1 as int,
            ),
{
    let mut spans: Vec<(usize, usize)> = Vec::new();
    let ghost mut done: Seq<Seq<char>> = seq![];
    let mut i: usize = 0;
    loop
        invariant
            i <= t.len(),
            words(t@) == done + words_from(t@, i as int),
            spans.len() == done.len(),
            forall|k: int|
                0 <= k < spans.len() ==> (spans[k].0 <= spans[k].1 && spans[k].1 <= t.len()),
            forall|k: int|
                0 <= k < spans.len() ==> #[trigger] done[k] == t@.subrange(
                    spans[k].0 as int,
                    spans[k].1 as int,
                ),
        decreases t.len() - i,
    {
        proof {
            lemma_scan_bounds(t@, i as int);
        }
        let ghost i0 = i as int;
        while i < t.len() && is_whitespace(t[i])
            invariant
                i0 <= i <= t.len(),
                skip_ws(t@, i as int) == skip_ws(t@, i0),
            decreases t.len() - i,
        {
            i = i + 1;
        }
        if i >= t.len() {
            assert(words_from(t@, i0) == Seq::<Seq<char>>::empty());
            assert(words(t@) =~= done);
            return spans;
        }
        let a = i;
        proof {
            lemma_scan_bounds(t@, a as int);
        }
        while i < t.len() && !is_whitespace(t[i])
            invariant
                a <= i <= t.len(),
                token_end(t@, i as int) == token_end(t@, a as int),
            decreases t.len() - i,
        {
            i = i + 1;
        }
        proof {
            let w = t@.subrange(a as int, i as int);
            assert(words_from(t@, i0) == seq![w] + words_from(t@, i as int));
            assert(words(t@) =~= done.push(w) + words_from(t@, i as int));
            done = done.push(w);
        }
        let ghost prev = spans@;
        spans.push((a, i));
        assert forall|k: int| 0 <= k < spans.len() implies #[trigger] done[k] == t@.subrange(
            spans[k].0 as int,
            spans[k].1 as int,
        ) && (spans[k].0 <= spans[k].1 && spans[k].1 <= t.len()) by {
            if k < prev.len() {
                assert(spans[k] == prev[k]);
            }
        }
    }
}

} // verus!
