//! Limiting a session report to its most recently active rows.
use vstd::prelude::*;
use vstd::string::*;
use crate::order::{
    chars_precede, key_precedes, lemma_key_total, lemma_limit_twice, lemma_ranks_transitive,
    lemma_selected_positions, lemma_selection_unique, min_limit, ranks_before, recent_rows,
    selected_positions, is_recent_selection, KeyView,
};
use crate::timestamp::{parse_ts_timestamp, parsed_timestamp, TimestampMs};
use crate::entry::{AgentReportKind, LoadedEntry};

verus! {

/// A sort key in the form the selection compares: activity time and the
/// identifier's characters.
pub type CharKey = (Option<TimestampMs>, Vec<char>);

pub open spec fn char_key_view(k: CharKey) -> KeyView {
    (k.0, k.1@)
}

pub open spec fn char_keys_view(ks: Seq<CharKey>) -> Seq<KeyView> {
    ks.map_values(|k: CharKey| char_key_view(k))
}

/// The characters of `s`, in order.
pub fn string_chars(s: &str) -> (v: Vec<char>)
    ensures
        v@ == s@,
{
    let n = s.unicode_len();
    let mut v: Vec<char> = Vec::new();
    let mut i: usize = 0;
    while i < n
        invariant
            n == s@.len(),
            i <= n,
            v@ == s@.take(i as int),
        decreases n - i,
    {
        let c = s.get_char(i);
        v.push(c);
        i = i + 1;
        assert(v@ =~= s@.take(i as int));
    }
    assert(v@ =~= s@);
    v
}

/// Decides `chars_precede` on two character vectors.
fn chars_precede_exec(a: &Vec<char>, b: &Vec<char>) -> (r: bool)
    ensures
        r == chars_precede(a@, b@),
{
    let mut i: usize = 0;
    assert(a@.skip(0) =~= a@ && b@.skip(0) =~= b@);
    while i < a.len() && i < b.len()
        invariant
            i <= a@.len(),
            i <= b@.len(),
            chars_precede(a@, b@) == chars_precede(a@.skip(i as int), b@.skip(i as int)),
        decreases a@.len() - i,
    {
        let x = a[i];
        let y = b[i];
        assert(a@.skip(i as int)[0] == x && b@.skip(i as int)[0] == y);
        if x != y {
            return x < y;
        }
        assert(a@.skip(i as int).drop_first() =~= a@.skip(i + 1));
        assert(b@.skip(i as int).drop_first() =~= b@.skip(i + 1));
        i = i + 1;
    }
    i == a.len() && i < b.len()
}

/// Decides `key_precedes`.
fn key_precedes_exec(a: &CharKey, b: &CharKey) -> (r: bool)
    ensures
        r == key_precedes(char_key_view(*a), char_key_view(*b)),
{
    match (a.0, b.0) {
        (Some(x), Some(y)) => {
            if x.0 != y.0 {
                x.0 > y.0
            } else {
                chars_precede_exec(&a.1, &b.1)
            }
        },
        (Some(_), None) => true,
        (None, Some(_)) => false,
        (None, None) => chars_precede_exec(&a.1, &b.1),
    }
}

/// Keeps the `count` best-ranked rows of `rows`, best first, where row `i`
/// has key `keys[i]`.
fn select_recent<T>(rows: &mut Vec<T>, keys: Vec<CharKey>, count: usize)
    requires
        old(rows)@.len() == keys@.len(),
    ensures
        final(rows)@ == recent_rows(old(rows)@, char_keys_view(keys@), count as nat),
{
    let ghost orig = rows@;
    let ghost kv = char_keys_view(keys@);
    let n = rows.len();
    let mut rem_rows: Vec<T> = Vec::new();
    std::mem::swap(rows, &mut rem_rows);
    let mut rem_keys = keys;
    let mut out: Vec<T> = Vec::new();
    let ghost mut rem_idx: Seq<int> = Seq::new(n as nat, |i: int| i);
    let ghost mut out_idx: Seq<int> = Seq::empty();
    assert forall|k: int| 0 <= k < n implies out_idx.contains(k) || rem_idx.contains(k) by {
        assert(rem_idx[k] == k);
    }
    while out.len() < count && rem_rows.len() > 0
        invariant
            n == orig.len(),
            kv.len() == n,
            kv == char_keys_view(keys@),
            rem_rows@.len() == rem_idx.len(),
            rem_keys@.len() == rem_idx.len(),
            out@.len() == out_idx.len(),
            out_idx.len() + rem_idx.len() == n,
            out_idx.len() <= count,
            forall|q: int|
                0 <= q < rem_idx.len() ==> 0 <= #[trigger] rem_idx[q] < n && rem_rows@[q]
                    == orig[rem_idx[q]] && char_key_view(rem_keys@[q]) == kv[rem_idx[q]],
            forall|p: int|
                0 <= p < out_idx.len() ==> 0 <= #[trigger] out_idx[p] < n && out@[p]
                    == orig[out_idx[p]],
            forall|q1: int, q2: int|
                0 <= q1 < q2 < rem_idx.len() ==> #[trigger] rem_idx[q1] < #[trigger] rem_idx[q2],
            forall|p1: int, p2: int|
                0 <= p1 < p2 < out_idx.len() ==> ranks_before(
                    kv,
                    #[trigger] out_idx[p1],
                    #[trigger] out_idx[p2],
                ),
            forall|p: int, q: int|
                0 <= p < out_idx.len() && 0 <= q < rem_idx.len() ==> ranks_before(
                    kv,
                    #[trigger] out_idx[p],
                    #[trigger] rem_idx[q],
                ),
            forall|k: int| 0 <= k < n ==> out_idx.contains(k) || rem_idx.contains(k),
        decreases rem_idx.len(),
    {
        let len = rem_rows.len();
        let mut best: usize = 0;
        let mut c: usize = 1;
        while c < len
            invariant
                len == rem_rows@.len(),
                len == rem_idx.len(),
                rem_keys@.len() == len,
                1 <= c <= len,
                best < c,
                kv.len() == n,
                forall|q: int|
                    0 <= q < rem_idx.len() ==> 0 <= #[trigger] rem_idx[q] < n && char_key_view(
                        rem_keys@[q],
                    ) == kv[rem_idx[q]],
                forall|q1: int, q2: int|
                    0 <= q1 < q2 < rem_idx.len() ==> #[trigger] rem_idx[q1]
                        < #[trigger] rem_idx[q2],
                forall|q: int|
                    0 <= q < c && q != best ==> ranks_before(
                        kv,
                        rem_idx[best as int],
                        #[trigger] rem_idx[q],
                    ),
            decreases len - c,
        {
            let better = key_precedes_exec(&rem_keys[c], &rem_keys[best]);
            proof {
                let xb = rem_idx[best as int];
                let xc = rem_idx[c as int];
                lemma_key_total(kv[xc], kv[xb]);
                if better {
                    assert forall|q: int| 0 <= q < c + 1 && q != c implies ranks_before(
                        kv,
                        xc,
                        #[trigger] rem_idx[q],
                    ) by {
                        if q != best {
                            lemma_ranks_transitive(kv, xc, xb, rem_idx[q]);
                        }
                    }
                } else {
                    assert(ranks_before(kv, xb, xc));
                }
            }
            if better {
                best = c;
            }
            c = c + 1;
        }
        let row = rem_rows.remove(best);
        let _k = rem_keys.remove(best);
        out.push(row);
        proof {
            let x = rem_idx[best as int];
            let old_rem = rem_idx;
            let old_out = out_idx;
            out_idx = out_idx.push(x);
            rem_idx = rem_idx.remove(best as int);
            assert forall|p: int, q: int|
                0 <= p < out_idx.len() && 0 <= q < rem_idx.len() implies ranks_before(
                kv,
                #[trigger] out_idx[p],
                #[trigger] rem_idx[q],
            ) by {
                let oq = if q < best { q } else { q + 1 };
                assert(rem_idx[q] == old_rem[oq]);
                if p < old_out.len() {
                    assert(out_idx[p] == old_out[p]);
                } else {
                    assert(oq != best);
                }
            }
            assert forall|p1: int, p2: int| 0 <= p1 < p2 < out_idx.len() implies ranks_before(
                kv,
                #[trigger] out_idx[p1],
                #[trigger] out_idx[p2],
            ) by {
                if p2 == old_out.len() {
                    assert(out_idx[p1] == old_out[p1]);
                    assert(old_rem[best as int] == x);
                }
            }
            assert forall|q1: int, q2: int| 0 <= q1 < q2 < rem_idx.len() implies #[trigger] rem_idx[q1]
                < #[trigger] rem_idx[q2] by {
                let o1 = if q1 < best { q1 } else { q1 + 1 };
                let o2 = if q2 < best { q2 } else { q2 + 1 };
                assert(rem_idx[q1] == old_rem[o1]);
                assert(rem_idx[q2] == old_rem[o2]);
            }
            assert forall|k: int| 0 <= k < n implies out_idx.contains(k) || rem_idx.contains(k) by {
                if old_out.contains(k) {
                    let p = choose|p: int| 0 <= p < old_out.len() && old_out[p] == k;
                    assert(out_idx[p] == k);
                } else {
                    let q = choose|q: int| 0 <= q < old_rem.len() && old_rem[q] == k;
                    if q < best {
                        assert(rem_idx[q] == k);
                    } else if q == best {
                        assert(out_idx[old_out.len() as int] == k);
                    } else {
                        assert(rem_idx[q - 1] == k);
                    }
                }
            }
        }
    }
    proof {
        assert forall|k: int, i: int|
            #![trigger ranks_before(kv, out_idx[i], k)]
            0 <= k < kv.len() && !out_idx.contains(k) && 0 <= i < out_idx.len() implies ranks_before(
            kv,
            out_idx[i],
            k,
        ) by {
            let q = choose|q: int| 0 <= q < rem_idx.len() && rem_idx[q] == k;
            assert(ranks_before(kv, out_idx[i], rem_idx[q]));
        }
        assert(is_recent_selection(kv, count as nat, out_idx));
        lemma_selection_unique(kv, count as nat, out_idx, selected_positions(kv, count as nat));
        assert(out@ =~= recent_rows(orig, kv, count as nat));
    }
    *rows = out;
}

/// One row of a session report, with what the row limit reads and the
/// token totals that follow the row.
#[derive(Debug)]
pub struct UsageSummary {
    pub session_id: Option<String>,
    pub last_activity: Option<String>,
    pub input_tokens: u64,
    pub output_tokens: u64,
    pub cache_creation_tokens: u64,
    pub cache_read_tokens: u64,
    pub total_tokens: u64,
}

/// A key as the caller's key function returns it.
pub type RowKey = (Option<TimestampMs>, String);

pub open spec fn row_keys_view(ks: Seq<RowKey>) -> Seq<KeyView> {
    ks.map_values(|k: RowKey| (k.0, k.1@))
}

/// Keeps, newest first, the `last` rows with the most recent keys: a row
/// whose time is unknown is older than every row whose time is known, and
/// rows with equal times are ordered by identifier; rows with equal keys keep
/// their order. With no limit the rows are left as they are. `key` is called
/// once per row.
pub fn limit_recent<T, F: Fn(&T) -> RowKey>(rows: &mut Vec<T>, last: Option<u32>, key: F)
    requires
        forall|row: &T| #[trigger] key.requires((row,)),
    ensures
        last is None ==> final(rows)@ == old(rows)@,
        last is Some ==> limited_by(key, old(rows)@, last->0 as nat, final(rows)@),
{
    let count = match last {
        None => {
            return ;
        },
        Some(count) => count,
    };
    let n = rows.len();
    let mut keys: Vec<CharKey> = Vec::new();
    let ghost mut ks: Seq<RowKey> = Seq::empty();
    let mut i: usize = 0;
    while i < n
        invariant
            n == rows@.len(),
            rows@ == old(rows)@,
            i <= n,
            ks.len() == i,
            keys@.len() == i,
            forall|row: &T| #[trigger] key.requires((row,)),
            forall|j: int| 0 <= j < i ==> key.ensures((&old(rows)@[j],), #[trigger] ks[j]),
            forall|j: int|
                0 <= j < i ==> #[trigger] char_key_view(keys@[j]) == (ks[j].0, ks[j].1@),
        decreases n - i,
    {
        let k = key(&rows[i]);
        let chars = string_chars(k.1.as_str());
        keys.push((k.0, chars));
        proof {
            ks = ks.push(k);
        }
        i = i + 1;
    }
    assert(char_keys_view(keys@) =~= row_keys_view(ks));
    assert(keyed_by(key, old(rows)@, ks));
    select_recent(rows, keys, count as usize);
}

/// Whether `ks` are keys `key` gives the rows of `rows`, one per row.
pub open spec fn keyed_by<T, F: Fn(&T) -> RowKey>(key: F, rows: Seq<T>, ks: Seq<RowKey>) -> bool {
    &&& ks.len() == rows.len()
    &&& forall|i: int| 0 <= i < ks.len() ==> key.ensures((&rows[i],), #[trigger] ks[i])
}

/// Whether `out` is what limiting `rows` to `count` rows by `key` gives:
/// the rows `recent_rows` keeps under the keys `key` gives them.
pub open spec fn limited_by<T, F: Fn(&T) -> RowKey>(key: F, rows: Seq<T>, count: nat, out: Seq<T>) -> bool {
    exists|ks: Seq<RowKey>|
        #[trigger] keyed_by(key, rows, ks) && out == recent_rows(rows, row_keys_view(ks), count)
}

/// Whether `key` gives each row one key, whichever call it is.
pub open spec fn keys_deterministically<T, F: Fn(&T) -> RowKey>(key: F) -> bool {
    forall|r: &T, a: RowKey, b: RowKey|
        #[trigger] key.ensures((r,), a) && #[trigger] key.ensures((r,), b) ==> a.0 == b.0 && a.1@
            == b.1@
}

proof fn lemma_keys_agree<T, F: Fn(&T) -> RowKey>(
    key: F,
    rows: Seq<T>,
    a: Seq<RowKey>,
    b: Seq<RowKey>,
)
    requires
        keys_deterministically(key),
        keyed_by(key, rows, a),
        keyed_by(key, rows, b),
    ensures
        row_keys_view(a) == row_keys_view(b),
{
    assert forall|i: int| 0 <= i < a.len() implies row_keys_view(a)[i] == row_keys_view(b)[i] by {
        assert(key.ensures((&rows[i],), a[i]));
        assert(key.ensures((&rows[i],), b[i]));
    }
    assert(row_keys_view(a) =~= row_keys_view(b));
}

/// With a key function that gives each row one key, limiting rows to `m`
/// and then to `n` gives what limiting them once to the smaller of `m` and
/// `n` gives.
pub proof fn lemma_limit_recent_twice<T, F: Fn(&T) -> RowKey>(
    key: F,
    rows: Seq<T>,
    mid: Seq<T>,
    twice: Seq<T>,
    once: Seq<T>,
    m: nat,
    n: nat,
)
    requires
        keys_deterministically(key),
        limited_by(key, rows, m, mid),
        limited_by(key, mid, n, twice),
        limited_by(key, rows, min_limit(m, n), once),
    ensures
        twice == once,
{
    let ks0 = choose|ks: Seq<RowKey>|
        #[trigger] keyed_by(key, rows, ks) && mid == recent_rows(rows, row_keys_view(ks), m);
    let ks1 = choose|ks: Seq<RowKey>|
        #[trigger] keyed_by(key, mid, ks) && twice == recent_rows(mid, row_keys_view(ks), n);
    let ks2 = choose|ks: Seq<RowKey>|
        #[trigger] keyed_by(key, rows, ks) && once == recent_rows(
            rows,
            row_keys_view(ks),
            min_limit(m, n),
        );
    let k0 = row_keys_view(ks0);
    lemma_keys_agree(key, rows, ks0, ks2);
    lemma_selected_positions(k0, m);
    let idx = selected_positions(k0, m);
    assert forall|i: int| 0 <= i < mid.len() implies row_keys_view(ks1)[i] == recent_rows(
        k0,
        k0,
        m,
    )[i] by {
        assert(mid[i] == rows[idx[i]]);
        assert(0 <= idx[i] < rows.len());
        assert(key.ensures((&mid[i],), ks1[i]));
        assert(key.ensures((&rows[idx[i]],), ks0[idx[i]]));
    }
    assert(row_keys_view(ks1) =~= recent_rows(k0, k0, m));
    lemma_limit_twice(rows, k0, m, n);
}

/// The identifier a session row is known by: its session id, or the empty
/// string.
pub open spec fn row_id(row: UsageSummary) -> Seq<char> {
    match row.session_id {
        Some(s) => s@,
        None => Seq::empty(),
    }
}

/// The later of a known latest time and a new time.
pub open spec fn later_of(prev: Option<TimestampMs>, t: TimestampMs) -> TimestampMs {
    match prev {
        Some(p) => if t.0 > p.0 {
            t
        } else {
            p
        },
        None => t,
    }
}

/// The latest timestamp among the entries of session `id`, if it has any.
pub open spec fn latest_activity<C>(entries: Seq<LoadedEntry<C>>, id: Seq<char>) -> Option<
    TimestampMs,
>
    decreases entries.len(),
{
    if entries.len() == 0 {
        None
    } else {
        let prev = latest_activity(entries.drop_last(), id);
        if entries.last().session_id@ == id {
            Some(later_of(prev, entries.last().timestamp))
        } else {
            prev
        }
    }
}

/// The latest activity of session `id` is the latest timestamp among its
/// entries, wherever they stand: some entry of `id` has it and no entry of
/// `id` is later; a session without entries has none.
pub proof fn lemma_latest_activity_is_latest<C>(entries: Seq<LoadedEntry<C>>, id: Seq<char>)
    ensures
        latest_activity(entries, id) is None <==> forall|i: int|
            0 <= i < entries.len() ==> (#[trigger] entries[i]).session_id@ != id,
        latest_activity(entries, id) matches Some(t) ==> exists|i: int|
            0 <= i < entries.len() && (#[trigger] entries[i]).session_id@ == id
                && entries[i].timestamp == t,
        latest_activity(entries, id) matches Some(t) ==> forall|i: int|
            0 <= i < entries.len() && (#[trigger] entries[i]).session_id@ == id
                ==> entries[i].timestamp.0 <= t.0,
    decreases entries.len(),
{
    if entries.len() > 0 {
        let init = entries.drop_last();
        let n = entries.len() - 1;
        lemma_latest_activity_is_latest(init, id);
        assert forall|i: int| 0 <= i < n implies #[trigger] entries[i] == init[i] by {}
        assert(entries[n] == entries.last());
        let prev = latest_activity(init, id);
        if entries.last().session_id@ == id {
            let t = later_of(prev, entries.last().timestamp);
            assert(latest_activity(entries, id) == Some(t));
            assert(entries[n].session_id@ == id);
            assert forall|i: int|
                0 <= i < entries.len() && (#[trigger] entries[i]).session_id@ == id implies entries[i].timestamp.0
                <= t.0 by {
                if i < n {
                    assert(init[i].session_id@ == id);
                }
            }
            match prev {
                Some(p) => {
                    let k = choose|k: int|
                        0 <= k < init.len() && (#[trigger] init[k]).session_id@ == id
                            && init[k].timestamp == p;
                    assert(entries[k] == init[k]);
                    if t == p {
                        assert(entries[k].session_id@ == id && entries[k].timestamp == t);
                    } else {
                        assert(entries[n].timestamp == t);
                    }
                },
                None => {
                    assert(entries[n].timestamp == t);
                },
            }
        } else {
            assert(latest_activity(entries, id) == prev);
            assert forall|i: int|
                0 <= i < entries.len() && (#[trigger] entries[i]).session_id@ == id implies i < n
                && init[i].session_id@ == id by {}
            if let Some(p) = prev {
                let k = choose|k: int|
                    0 <= k < init.len() && (#[trigger] init[k]).session_id@ == id
                        && init[k].timestamp == p;
                assert(entries[k] == init[k]);
            } else {
                assert forall|i: int| 0 <= i < entries.len() implies (#[trigger] entries[i]).session_id@
                    != id by {
                    if i < n {
                        assert(init[i].session_id@ != id);
                    }
                }
            }
        }
    }
}

/// How recent a session row is: its own last-activity time where that
/// parses, else the latest timestamp among its session's entries.
pub open spec fn row_activity<C>(row: UsageSummary, entries: Seq<LoadedEntry<C>>) -> Option<
    TimestampMs,
> {
    let own = match row.last_activity {
        Some(t) => parsed_timestamp(t@),
        None => None,
    };
    match own {
        Some(ts) => Some(ts),
        None => latest_activity(entries, row_id(row)),
    }
}

/// The keys by which `limit_session_rows` ranks rows.
pub open spec fn session_keys<C>(rows: Seq<UsageSummary>, entries: Seq<LoadedEntry<C>>) -> Seq<
    KeyView,
> {
    rows.map_values(|r: UsageSummary| (row_activity(r, entries), row_id(r)))
}

/// Each session row is ranked by its own last-activity time when that
/// parses, else by the latest timestamp among its session's entries; ties
/// go by its session id (empty without one).
pub proof fn lemma_session_key_of_row<C>(
    rows: Seq<UsageSummary>,
    entries: Seq<LoadedEntry<C>>,
    i: int,
)
    requires
        0 <= i < rows.len(),
    ensures
        session_keys(rows, entries)[i].1 == match rows[i].session_id {
            Some(s) => s@,
            None => Seq::<char>::empty(),
        },
        rows[i].last_activity is Some && parsed_timestamp(rows[i].last_activity->0@) is Some
            ==> session_keys(rows, entries)[i].0 == parsed_timestamp(rows[i].last_activity->0@),
        (rows[i].last_activity is None || parsed_timestamp(rows[i].last_activity->0@) is None)
            ==> session_keys(rows, entries)[i].0 == latest_activity(
            entries,
            match rows[i].session_id {
                Some(s) => s@,
                None => Seq::<char>::empty(),
            },
        ),
{
}

/// The sessions seen so far, each with the latest timestamp of its entries;
/// no session occurs twice.
struct ActivityTable {
    ids: Vec<String>,
    latest: Vec<TimestampMs>,
}

impl ActivityTable {
    spec fn wf<C>(&self, entries: Seq<LoadedEntry<C>>) -> bool {
        &&& self.ids@.len() == self.latest@.len()
        &&& forall|a: int, b: int|
            0 <= a < b < self.ids@.len() ==> #[trigger] self.ids@[a]@ != #[trigger] self.ids@[b]@
        &&& forall|a: int|
            0 <= a < self.ids@.len() ==> latest_activity(entries, #[trigger] self.ids@[a]@) == Some(
                self.latest@[a],
            )
        &&& forall|id: Seq<char>|
            #[trigger] latest_activity(entries, id) is Some ==> exists|a: int|
                0 <= a < self.ids@.len() && #[trigger] self.ids@[a]@ == id
    }

    /// Position of `id` in the table.
    fn position(&self, id: &String) -> (pos: Option<usize>)
        requires
            self.ids@.len() == self.latest@.len(),
        ensures
            match pos {
                Some(a) => a < self.ids@.len() && self.ids@[a as int]@ == id@,
                None => forall|a: int| 0 <= a < self.ids@.len() ==> self.ids@[a]@ != id@,
            },
    {
        let mut a: usize = 0;
        while a < self.ids.len()
            invariant
                a <= self.ids@.len(),
                forall|b: int| 0 <= b < a ==> self.ids@[b]@ != id@,
            decreases self.ids@.len() - a,
        {
            if self.ids[a] == *id {
                return Some(a);
            }
            a = a + 1;
        }
        None
    }

    /// Collects the latest activity of every session among `entries`.
    fn build<C>(entries: &[LoadedEntry<C>]) -> (table: ActivityTable)
        ensures
            table.wf(entries@),
    {
        let mut table = ActivityTable { ids: Vec::new(), latest: Vec::new() };
        let mut i: usize = 0;
        assert(entries@.take(0) =~= Seq::<LoadedEntry<C>>::empty());
        while i < entries.len()
            invariant
                i <= entries@.len(),
                table.wf(entries@.take(i as int)),
            decreases entries@.len() - i,
        {
            let e = &entries[i];
            let ghost prefix = entries@.take(i as int);
            let ghost next = entries@.take(i + 1);
            assert(next.drop_last() =~= prefix);
            assert(next.last() == *e);
            match table.position(&e.session_id) {
                Some(a) => {
                    let cur = table.latest[a];
                    let upd = if e.timestamp.0 > cur.0 {
                        e.timestamp
                    } else {
                        cur
                    };
                    table.latest.set(a, upd);
                    proof {
                        assert forall|b: int|
                            0 <= b < table.ids@.len() implies latest_activity(
                            next,
                            #[trigger] table.ids@[b]@,
                        ) == Some(table.latest@[b]) by {
                            if b != a {
                                assert(table.ids@[b]@ != table.ids@[a as int]@);
                            }
                        }
                        assert forall|id: Seq<char>|
                            #[trigger] latest_activity(next, id) is Some implies exists|b: int|
                                0 <= b < table.ids@.len() && #[trigger] table.ids@[b]@ == id by {
                            if id != e.session_id@ {
                                assert(latest_activity(prefix, id) is Some);
                            } else {
                                assert(table.ids@[a as int]@ == id);
                            }
                        }
                    }
                },
                None => {
                    proof {
                        assert(latest_activity(prefix, e.session_id@) is None) by {
                            if latest_activity(prefix, e.session_id@) is Some {
                                let b = choose|b: int|
                                    0 <= b < table.ids@.len() && #[trigger] table.ids@[b]@
                                        == e.session_id@;
                                assert(table.ids@[b]@ != e.session_id@);
                            }
                        }
                    }
                    let ghost old_ids = table.ids@;
                    table.ids.push(e.session_id.clone());
                    table.latest.push(e.timestamp);
                    proof {
                        let last = old_ids.len() as int;
                        assert(table.ids@[last]@ == e.session_id@);
                        assert forall|b: int|
                            0 <= b < table.ids@.len() implies latest_activity(
                            next,
                            #[trigger] table.ids@[b]@,
                        ) == Some(table.latest@[b]) by {
                            if b != last {
                                assert(table.ids@[b] == old_ids[b]);
                            }
                        }
                        assert forall|c: int, d: int|
                            0 <= c < d < table.ids@.len() implies #[trigger] table.ids@[c]@
                            != #[trigger] table.ids@[d]@ by {
                            if d == last {
                                assert(table.ids@[c] == old_ids[c]);
                            }
                        }
                        assert forall|id: Seq<char>|
                            #[trigger] latest_activity(next, id) is Some implies exists|b: int|
                                0 <= b < table.ids@.len() && #[trigger] table.ids@[b]@ == id by {
                            if id != e.session_id@ {
                                assert(latest_activity(prefix, id) is Some);
                                let b = choose|b: int|
                                    0 <= b < old_ids.len() && #[trigger] old_ids[b]@ == id;
                                assert(table.ids@[b] == old_ids[b]);
                            } else {
                                assert(table.ids@[last]@ == id);
                            }
                        }
                    }
                },
            }
            i = i + 1;
        }
        assert(entries@.take(entries@.len() as int) =~= entries@);
        table
    }

    /// The latest activity recorded for session `id`.
    fn lookup<C>(&self, id: &String, Ghost(entries): Ghost<Seq<LoadedEntry<C>>>) -> (ts: Option<
        TimestampMs,
    >)
        requires
            self.wf(entries),
        ensures
            ts == latest_activity(entries, id@),
    {
        match self.position(id) {
            Some(a) => Some(self.latest[a]),
            None => {
                proof {
                    if latest_activity(entries, id@) is Some {
                        let b = choose|b: int|
                            0 <= b < self.ids@.len() && #[trigger] self.ids@[b]@ == id@;
                    }
                }
                None
            },
        }
    }
}

/// Keeps, for a session report with a `last` limit, the `last` most recently
/// active session rows, newest first (see `limit_recent`). A row's activity
/// is its own last-activity time where that parses, else the latest
/// timestamp among `entries` of its session. Other reports, and a report
/// without a limit, are left as they are.
pub fn limit_session_rows<C>(
    rows: &mut Vec<UsageSummary>,
    entries: &[LoadedEntry<C>],
    kind: AgentReportKind,
    last: Option<u32>,
)
    ensures
        kind != AgentReportKind::Session || last is None ==> final(rows)@ == old(rows)@,
        kind == AgentReportKind::Session && last is Some ==> final(rows)@ == recent_rows(
            old(rows)@,
            session_keys(old(rows)@, entries@),
            last->0 as nat,
        ),
{
    if kind != AgentReportKind::Session {
        return ;
    }
    let count = match last {
        None => {
            return ;
        },
        Some(count) => count,
    };
    let table = ActivityTable::build(entries);
    let n = rows.len();
    let mut keys: Vec<CharKey> = Vec::new();
    let mut i: usize = 0;
    while i < n
        invariant
            n == rows@.len(),
            i <= n,
            keys@.len() == i,
            table.wf(entries@),
            forall|j: int|
                0 <= j < i ==> #[trigger] char_key_view(keys@[j]) == session_keys(
                    rows@,
                    entries@,
                )[j],
        decreases n - i,
    {
        let row = &rows[i];
        let id = match &row.session_id {
            Some(s) => s.clone(),
            None => String::new(),
        };
        let own = match &row.last_activity {
            Some(t) => parse_ts_timestamp(t.as_str()),
            None => None,
        };
        let activity = match own {
            Some(ts) => Some(ts),
            None => table.lookup::<C>(&id, Ghost(entries@)),
        };
        let chars = string_chars(id.as_str());
        keys.push((activity, chars));
        i = i + 1;
    }
    assert(char_keys_view(keys@) =~= session_keys(rows@, entries@));
    select_recent(rows, keys, count as usize);
}

} // verus!
