//! Splitting a JSONL session log into the lines worth parsing: a usable pi
//! record carries its token counts under a `"usage"` key inside a
//! `"message"` object, so lines without both keys are skipped unparsed.
use vstd::prelude::*;

verus! {

/// The bytes of `"usage"`, quotes included.
pub open spec fn usage_key_bytes() -> Seq<u8> {
    seq![34u8, 117u8, 115u8, 97u8, 103u8, 101u8, 34u8]
}

/// The bytes of `"message"`, quotes included.
pub open spec fn message_key_bytes() -> Seq<u8> {
    seq![34u8, 109u8, 101u8, 115u8, 115u8, 97u8, 103u8, 101u8, 34u8]
}

/// Whether `needle` occurs in `hay`.
pub open spec fn contains_bytes(hay: Seq<u8>, needle: Seq<u8>) -> bool {
    exists|i: int|
        0 <= i && i + needle.len() <= hay.len() && #[trigger] hay.subrange(i, i + needle.len())
            == needle
}

/// A line that may hold a usable record: it contains both `"usage"` and
/// `"message"`.
pub open spec fn may_hold_usage(line: Seq<u8>) -> bool {
    contains_bytes(line, usage_key_bytes()) && contains_bytes(line, message_key_bytes())
}

/// Adds the line `s[a..b]` to `spans` when it may hold a usable record.
pub open spec fn keep_line(spans: Seq<(int, int)>, s: Seq<u8>, a: int, b: int) -> Seq<(int, int)> {
    if may_hold_usage(s.subrange(a, b)) {
        spans.push((a, b))
    } else {
        spans
    }
}

/// Splitting the first `n` bytes of `s` at newlines: the kept lines so far
/// and where the open line starts.
pub open spec fn line_state(s: Seq<u8>, n: int) -> (Seq<(int, int)>, int)
    decreases n,
{
    if n <= 0 {
        (Seq::empty(), 0)
    } else {
        let p = line_state(s, n - 1);
        if s[n - 1] == 10u8 {
            (keep_line(p.0, s, p.1, n - 1), n)
        } else {
            p
        }
    }
}

/// The byte ranges, in order, of the lines of `s` (separated by `\n`) that
/// may hold a usable record.
pub open spec fn record_lines(s: Seq<u8>) -> Seq<(int, int)> {
    let p = line_state(s, s.len() as int);
    keep_line(p.0, s, p.1, s.len() as int)
}

pub open spec fn spans_view(v: Seq<(usize, usize)>) -> Seq<(int, int)> {
    v.map_values(|p: (usize, usize)| (p.0 as int, p.1 as int))
}

/// Whether `needle` occurs in `hay[start..end]`.
pub fn contains_within(hay: &[u8], start: usize, end: usize, needle: &[u8]) -> (found: bool)
    requires
        start <= end <= hay@.len(),
    ensures
        found == contains_bytes(hay@.subrange(start as int, end as int), needle@),
{
    let ghost h = hay@.subrange(start as int, end as int);
    let m = needle.len();
    if end - start < m {
        proof {
            if contains_bytes(h, needle@) {
                let i = choose|i: int|
                    0 <= i && i + needle@.len() <= h.len() && #[trigger] h.subrange(
                        i,
                        i + needle@.len(),
                    ) == needle@;
            }
        }
        return false;
    }
    let last = end - start - m;
    let mut i: usize = 0;
    while i <= last
        invariant
            start <= end <= hay@.len(),
            h == hay@.subrange(start as int, end as int),
            m == needle@.len(),
            last + m == end - start,
            forall|k: int| 0 <= k < i ==> #[trigger] h.subrange(k, k + m) != needle@,
        decreases last + 1 - i,
    {
        let mut j: usize = 0;
        let mut same = true;
        while j < m
            invariant
                start <= end <= hay@.len(),
                h == hay@.subrange(start as int, end as int),
                m == needle@.len(),
                i <= last,
                last + m == end - start,
                j <= m,
                same == (forall|t: int| 0 <= t < j ==> h[i + t] == needle@[t]),
            decreases m - j,
        {
            if hay[start + i + j] != needle[j] {
                same = false;
            }
            j = j + 1;
        }
        if same {
            assert(h.subrange(i as int, i + m) =~= needle@);
            return true;
        }
        proof {
            let t = choose|t: int| 0 <= t < m && h[i + t] != needle@[t];
            assert(h.subrange(i as int, i + m)[t] != needle@[t]);
        }
        i = i + 1;
    }
    proof {
        if contains_bytes(h, needle@) {
            let k = choose|k: int|
                0 <= k && k + needle@.len() <= h.len() && #[trigger] h.subrange(
                    k,
                    k + needle@.len(),
                ) == needle@;
            assert(h.subrange(k, k + m) != needle@);
        }
    }
    false
}

/// Whether `content[start..end]` may hold a usable record.
fn line_may_hold_usage(content: &[u8], start: usize, end: usize) -> (r: bool)
    requires
        start <= end <= content@.len(),
    ensures
        r == may_hold_usage(content@.subrange(start as int, end as int)),
{
    let usage: [u8; 7] = [34u8, 117u8, 115u8, 97u8, 103u8, 101u8, 34u8];
    let message: [u8; 9] = [34u8, 109u8, 101u8, 115u8, 115u8, 97u8, 103u8, 101u8, 34u8];
    assert(usage@ =~= usage_key_bytes());
    assert(message@ =~= message_key_bytes());
    contains_within(content, start, end, usage.as_slice()) && contains_within(
        content,
        start,
        end,
        message.as_slice(),
    )
}

/// The byte ranges of the lines of `content` that may hold a usable pi
/// record (see `record_lines`).
pub fn record_line_spans(content: &[u8]) -> (spans: Vec<(usize, usize)>)
    ensures
        spans_view(spans@) == record_lines(content@),
{
    let n = content.len();
    let mut spans: Vec<(usize, usize)> = Vec::new();
    let mut start: usize = 0;
    let mut i: usize = 0;
    assert(spans_view(spans@) =~= Seq::<(int, int)>::empty());
    while i < n
        invariant
            n == content@.len(),
            start <= i <= n,
            line_state(content@, i as int) == (spans_view(spans@), start as int),
        decreases n - i,
    {
        if content[i] == 10u8 {
            if line_may_hold_usage(content, start, i) {
                let ghost prev = spans_view(spans@);
                spans.push((start, i));
                assert(spans_view(spans@) =~= prev.push((start as int, i as int)));
            }
            start = i + 1;
        }
        i = i + 1;
    }
    if line_may_hold_usage(content, start, n) {
        let ghost prev = spans_view(spans@);
        spans.push((start, n));
        assert(spans_view(spans@) =~= prev.push((start as int, n as int)));
    }
    spans
}


/// A line may hold a usable record exactly when `"usage"` and `"message"`
/// each occur somewhere in it, wherever in the line they stand.
pub proof fn lemma_kept_line_holds_both_keys(line: Seq<u8>)
    ensures
        may_hold_usage(line) <==> (exists|i: int|
            0 <= i && i + 7 <= line.len() && #[trigger] line.subrange(i, i + 7)
                == usage_key_bytes()) && (exists|j: int|
            0 <= j && j + 9 <= line.len() && #[trigger] line.subrange(j, j + 9)
                == message_key_bytes()),
{
    assert(usage_key_bytes().len() == 7);
    assert(message_key_bytes().len() == 9);
}

/// A line holding `"usage"` at byte `i` and `"message"` at byte `j` may
/// hold a usable record, however far into the line those keys stand.
pub proof fn lemma_keys_anywhere_keep_the_line(line: Seq<u8>, i: int, j: int)
    requires
        0 <= i && i + 7 <= line.len(),
        line.subrange(i, i + 7) == usage_key_bytes(),
        0 <= j && j + 9 <= line.len(),
        line.subrange(j, j + 9) == message_key_bytes(),
    ensures
        may_hold_usage(line),
{
    lemma_kept_line_holds_both_keys(line);
}


/// Whether `s[a..b]` is a line of `s`: it starts at the beginning or right
/// after a newline, ends at the end or right before one, and holds none.
pub open spec fn is_line(s: Seq<u8>, a: int, b: int) -> bool {
    &&& 0 <= a <= b <= s.len()
    &&& (a == 0 || s[a - 1] == 10u8)
    &&& (b == s.len() || s[b] == 10u8)
    &&& forall|k: int| a <= k < b ==> s[k] != 10u8
}

/// What holds of the lines of the first `n` bytes of `s` split so far.
spec fn split_so_far(s: Seq<u8>, n: int, spans: Seq<(int, int)>, st: int) -> bool {
    &&& 0 <= st <= n <= s.len()
    &&& (st == 0 || s[st - 1] == 10u8)
    &&& forall|k: int| st <= k < n ==> s[k] != 10u8
    &&& forall|i: int|
        0 <= i < spans.len() ==> is_line(s, (#[trigger] spans[i]).0, spans[i].1) && spans[i].1 < st
            && may_hold_usage(s.subrange(spans[i].0, spans[i].1))
    &&& forall|i: int, j: int|
        0 <= i < j < spans.len() ==> (#[trigger] spans[i]).1 < (#[trigger] spans[j]).0
    &&& forall|a: int, b: int|
        #[trigger] is_line(s, a, b) && b < st && may_hold_usage(s.subrange(a, b))
            ==> spans.contains((a, b))
}

/// A line that ends at or after `st`, in a stretch from `st` without
/// newlines, is the one starting at `st`.
proof fn lemma_line_from(s: Seq<u8>, st: int, n: int, a: int, b: int)
    requires
        0 <= st <= n <= s.len(),
        st == 0 || s[st - 1] == 10u8,
        forall|k: int| st <= k < n ==> s[k] != 10u8,
        is_line(s, a, b),
        st <= b <= n,
        b == n || b == s.len(),
    ensures
        a == st,
{
    if a < st {
        assert(s[st - 1] == 10u8);
        assert(a <= st - 1 < b);
    } else if a > st {
        assert(s[a - 1] == 10u8);
        assert(st <= a - 1 < n);
    }
}

proof fn lemma_split_so_far(s: Seq<u8>, n: int)
    requires
        0 <= n <= s.len(),
    ensures
        split_so_far(s, n, line_state(s, n).0, line_state(s, n).1),
    decreases n,
{
    if n > 0 {
        lemma_split_so_far(s, n - 1);
        let (spans, st) = line_state(s, n - 1);
        if s[n - 1] == 10u8 {
            let m = n - 1;
            assert(is_line(s, st, m));
            let next = keep_line(spans, s, st, m);
            assert forall|i: int, j: int| 0 <= i < j < next.len() implies (#[trigger] next[i]).1
                < (#[trigger] next[j]).0 by {
                if j == spans.len() {
                    assert(next[i] == spans[i]);
                }
            }
            assert forall|a: int, b: int|
                #[trigger] is_line(s, a, b) && b < n && may_hold_usage(s.subrange(a, b))
                implies next.contains((a, b)) by {
                if b < st {
                    let i = choose|i: int| 0 <= i < spans.len() && spans[i] == (a, b);
                    assert(next[i] == spans[i]);
                } else {
                    if b < m {
                        assert(s[b] != 10u8);
                    }
                    lemma_line_from(s, st, m, a, b);
                    assert(next[spans.len() as int] == (a, b));
                }
            }
        }
    }
}

/// The spans `record_lines` keeps are, in order, exactly the lines of `s`
/// that hold both `"usage"` and `"message"`.
pub proof fn lemma_record_lines_are_the_usable_lines(s: Seq<u8>)
    ensures
        forall|i: int|
            0 <= i < record_lines(s).len() ==> is_line(
                s,
                (#[trigger] record_lines(s)[i]).0,
                record_lines(s)[i].1,
            ) && may_hold_usage(s.subrange(record_lines(s)[i].0, record_lines(s)[i].1)),
        forall|i: int, j: int|
            0 <= i < j < record_lines(s).len() ==> (#[trigger] record_lines(s)[i]).1 < (
            #[trigger] record_lines(s)[j]).0,
        forall|a: int, b: int|
            #[trigger] is_line(s, a, b) && may_hold_usage(s.subrange(a, b)) ==> record_lines(
                s,
            ).contains((a, b)),
{
    let n = s.len() as int;
    lemma_split_so_far(s, n);
    let (spans, st) = line_state(s, n);
    let out = record_lines(s);
    assert(is_line(s, st, n));
    assert forall|i: int| 0 <= i < out.len() implies is_line(s, (#[trigger] out[i]).0, out[i].1)
        && may_hold_usage(s.subrange(out[i].0, out[i].1)) by {
        if i < spans.len() {
            assert(out[i] == spans[i]);
        }
    }
    assert forall|i: int, j: int| 0 <= i < j < out.len() implies (#[trigger] out[i]).1 < (
    #[trigger] out[j]).0 by {
        if j == spans.len() {
            assert(out[i] == spans[i]);
        } else {
            assert(out[i] == spans[i]);
            assert(out[j] == spans[j]);
        }
    }
    assert forall|a: int, b: int|
        #[trigger] is_line(s, a, b) && may_hold_usage(s.subrange(a, b)) implies out.contains(
        (a, b),
    ) by {
        if b < st {
            let i = choose|i: int| 0 <= i < spans.len() && spans[i] == (a, b);
            assert(out[i] == spans[i]);
        } else {
            if b < n {
                assert(s[b] != 10u8);
            }
            lemma_line_from(s, st, n, a, b);
            assert(out[spans.len() as int] == (a, b));
        }
    }
}

} // verus!
