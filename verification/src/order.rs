//! The recency order on session rows and the selection of the most recent
//! rows, as mathematical definitions with their basic laws.
use vstd::prelude::*;
use crate::timestamp::TimestampMs;

verus! {

/// A row's sort key as it is compared: its activity time, if known, and its
/// identifier as a character sequence.
pub type KeyView = (Option<TimestampMs>, Seq<char>);

/// Strict lexicographic order on character sequences by code point. On
/// strings this is the order of `str`'s `Ord` (UTF-8 preserves code point
/// order byte by byte).
pub open spec fn chars_precede(a: Seq<char>, b: Seq<char>) -> bool
    decreases a.len(),
{
    if a.len() == 0 {
        b.len() > 0
    } else if b.len() == 0 {
        false
    } else if a[0] != b[0] {
        (a[0] as int) < (b[0] as int)
    } else {
        chars_precede(a.drop_first(), b.drop_first())
    }
}

/// `a` is more recent than `b`: a known time is more recent than an unknown
/// one, and of two known times the later one is.
pub open spec fn newer(a: Option<TimestampMs>, b: Option<TimestampMs>) -> bool {
    match a {
        Some(x) => match b {
            Some(y) => x.0 > y.0,
            None => true,
        },
        None => false,
    }
}

/// Key `a` sorts strictly before key `b`: newer first, then by identifier.
pub open spec fn key_precedes(a: KeyView, b: KeyView) -> bool {
    newer(a.0, b.0) || (a.0 == b.0 && chars_precede(a.1, b.1))
}

/// Row `i` ranks before row `j`: by key, and rows with equal keys keep
/// their input order.
pub open spec fn ranks_before(keys: Seq<KeyView>, i: int, j: int) -> bool {
    key_precedes(keys[i], keys[j]) || (keys[i] == keys[j] && i < j)
}

/// The number of rows kept from `n` rows under a limit of `count`.
pub open spec fn kept_len(count: nat, n: nat) -> nat {
    if count < n {
        count
    } else {
        n
    }
}

/// `idx` lists, best first, the `count` highest-ranked row positions (all of
/// them when there are fewer): every position not listed ranks after every
/// listed one.
pub open spec fn is_recent_selection(keys: Seq<KeyView>, count: nat, idx: Seq<int>) -> bool {
    &&& idx.len() == kept_len(count, keys.len())
    &&& forall|i: int| 0 <= i < idx.len() ==> 0 <= #[trigger] idx[i] < keys.len()
    &&& forall|i: int, j: int|
        0 <= i < j < idx.len() ==> ranks_before(keys, #[trigger] idx[i], #[trigger] idx[j])
    &&& forall|k: int, i: int|
        #![trigger ranks_before(keys, idx[i], k)]
        0 <= k < keys.len() && !idx.contains(k) && 0 <= i < idx.len() ==> ranks_before(
            keys,
            idx[i],
            k,
        )
}

/// The positions of the rows kept, best first.
pub open spec fn selected_positions(keys: Seq<KeyView>, count: nat) -> Seq<int> {
    choose|idx: Seq<int>| is_recent_selection(keys, count, idx)
}

/// The rows kept, best first.
pub open spec fn recent_rows<T>(rows: Seq<T>, keys: Seq<KeyView>, count: nat) -> Seq<T> {
    selected_positions(keys, count).map_values(|k: int| rows[k])
}

/// No text precedes itself.
pub proof fn lemma_chars_irreflexive(a: Seq<char>)
    ensures
        !chars_precede(a, a),
    decreases a.len(),
{
    if a.len() > 0 {
        lemma_chars_irreflexive(a.drop_first());
    }
}

/// Two texts never precede each other.
pub proof fn lemma_chars_asymmetric(a: Seq<char>, b: Seq<char>)
    ensures
        !(chars_precede(a, b) && chars_precede(b, a)),
    decreases a.len(),
{
    if a.len() > 0 && b.len() > 0 && a[0] == b[0] {
        lemma_chars_asymmetric(a.drop_first(), b.drop_first());
    }
}

/// Of two different texts, one precedes the other.
pub proof fn lemma_chars_total(a: Seq<char>, b: Seq<char>)
    ensures
        a != b ==> chars_precede(a, b) || chars_precede(b, a),
    decreases a.len(),
{
    if a.len() == 0 {
        if b.len() == 0 {
            assert(a =~= b);
        }
    } else if b.len() > 0 {
        if a[0] == b[0] {
            lemma_chars_total(a.drop_first(), b.drop_first());
            if a.drop_first() == b.drop_first() {
                assert(a =~= seq![a[0]] + a.drop_first());
                assert(b =~= seq![b[0]] + b.drop_first());
            }
        } else {
            assert((a[0] as int) != (b[0] as int));
        }
    }
}

/// Text order is transitive.
pub proof fn lemma_chars_transitive(a: Seq<char>, b: Seq<char>, c: Seq<char>)
    requires
        chars_precede(a, b),
        chars_precede(b, c),
    ensures
        chars_precede(a, c),
    decreases a.len(),
{
    if a.len() > 0 && b.len() > 0 && c.len() > 0 && a[0] == b[0] && b[0] == c[0] {
        lemma_chars_transitive(a.drop_first(), b.drop_first(), c.drop_first());
    }
}

/// Key order is a strict total order: irreflexive, asymmetric, and total
/// on different keys.
pub proof fn lemma_key_total(a: KeyView, b: KeyView)
    ensures
        a != b ==> key_precedes(a, b) || key_precedes(b, a),
        !(key_precedes(a, b) && key_precedes(b, a)),
        !key_precedes(a, a),
{
    lemma_chars_total(a.1, b.1);
    lemma_chars_asymmetric(a.1, b.1);
    lemma_chars_irreflexive(a.1);
}

/// Key order is transitive.
pub proof fn lemma_key_transitive(a: KeyView, b: KeyView, c: KeyView)
    requires
        key_precedes(a, b),
        key_precedes(b, c),
    ensures
        key_precedes(a, c),
{
    if a.0 == b.0 && b.0 == c.0 {
        lemma_chars_transitive(a.1, b.1, c.1);
    }
}

/// `ranks_before` is a strict total order on the positions of `keys`.
pub proof fn lemma_ranks_order(keys: Seq<KeyView>, i: int, j: int)
    ensures
        !ranks_before(keys, i, i),
        !(ranks_before(keys, i, j) && ranks_before(keys, j, i)),
        i != j ==> ranks_before(keys, i, j) || ranks_before(keys, j, i),
{
    lemma_key_total(keys[i], keys[j]);
    lemma_key_total(keys[i], keys[i]);
}

/// Rank order is transitive.
pub proof fn lemma_ranks_transitive(keys: Seq<KeyView>, i: int, j: int, k: int)
    requires
        ranks_before(keys, i, j),
        ranks_before(keys, j, k),
    ensures
        ranks_before(keys, i, k),
{
    if key_precedes(keys[i], keys[j]) && key_precedes(keys[j], keys[k]) {
        lemma_key_transitive(keys[i], keys[j], keys[k]);
    }
}

proof fn lemma_selection_prefix(keys: Seq<KeyView>, count: nat, a: Seq<int>, b: Seq<int>, n: int)
    requires
        is_recent_selection(keys, count, a),
        is_recent_selection(keys, count, b),
        0 <= n <= a.len(),
    ensures
        forall|j: int| 0 <= j < n ==> a[j] == b[j],
    decreases n,
{
    if n > 0 {
        lemma_selection_prefix(keys, count, a, b, n - 1);
        let i = n - 1;
        let x = a[i];
        let y = b[i];
        if x != y {
            lemma_ranks_order(keys, x, y);
            lemma_ranks_order(keys, x, x);
            lemma_ranks_order(keys, y, y);
            if ranks_before(keys, x, y) {
                if b.contains(x) {
                    let j = choose|j: int| 0 <= j < b.len() && b[j] == x;
                    if j < i {
                        assert(ranks_before(keys, a[j], a[i]));
                    } else if j > i {
                        assert(ranks_before(keys, b[i], b[j]));
                    }
                }
                assert(ranks_before(keys, b[i], x));
            } else {
                if a.contains(y) {
                    let j = choose|j: int| 0 <= j < a.len() && a[j] == y;
                    if j < i {
                        assert(ranks_before(keys, b[j], b[i]));
                    } else if j > i {
                        assert(ranks_before(keys, a[i], a[j]));
                    }
                }
                assert(ranks_before(keys, a[i], y));
            }
        }
    }
}

/// Which rows are kept, and in what order, is determined by the keys and the
/// limit alone: two selections for the same keys and limit are the same.
pub proof fn lemma_selection_unique(keys: Seq<KeyView>, count: nat, a: Seq<int>, b: Seq<int>)
    requires
        is_recent_selection(keys, count, a),
        is_recent_selection(keys, count, b),
    ensures
        a == b,
{
    lemma_selection_prefix(keys, count, a, b, a.len() as int);
    assert(a =~= b);
}

/// A sequence shorter than `n` misses some position below `n`.
proof fn lemma_short_sequence_misses(idx: Seq<int>, n: int)
    requires
        0 <= idx.len() < n,
    ensures
        exists|k: int| 0 <= k < n && !idx.contains(k),
{
    if forall|k: int| 0 <= k < n ==> idx.contains(k) {
        let r = vstd::set_lib::set_int_range(0, n);
        vstd::set_lib::lemma_int_range(0, n);
        vstd::seq_lib::seq_to_set_is_finite(idx);
        assert(r.subset_of(idx.to_set()));
        idx.lemma_cardinality_of_set();
        vstd::set_lib::lemma_len_subset(r, idx.to_set());
    }
}

/// The best-ranked position below `bound` that `idx` does not list, if any.
proof fn lemma_best_outside(keys: Seq<KeyView>, idx: Seq<int>, bound: int) -> (r: Option<int>)
    requires
        0 <= bound <= keys.len(),
    ensures
        r is None ==> forall|k: int| 0 <= k < bound ==> idx.contains(k),
        r matches Some(m) ==> {
            &&& 0 <= m < bound
            &&& !idx.contains(m)
            &&& forall|k: int|
                0 <= k < bound && !idx.contains(k) && k != m ==> ranks_before(keys, m, k)
        },
    decreases bound,
{
    if bound == 0 {
        None
    } else {
        let k = bound - 1;
        let prev = lemma_best_outside(keys, idx, k);
        if idx.contains(k) {
            prev
        } else {
            match prev {
                None => Some(k),
                Some(m) => {
                    lemma_ranks_order(keys, k, m);
                    if ranks_before(keys, k, m) {
                        assert forall|j: int|
                            0 <= j < bound && !idx.contains(j) && j != k implies ranks_before(
                            keys,
                            k,
                            j,
                        ) by {
                            if j != m {
                                lemma_ranks_transitive(keys, k, m, j);
                            }
                        }
                        Some(k)
                    } else {
                        Some(m)
                    }
                },
            }
        }
    }
}

/// For every limit there is a selection of the most recent rows.
pub proof fn lemma_selection_exists(keys: Seq<KeyView>, count: nat)
    ensures
        exists|idx: Seq<int>| is_recent_selection(keys, count, idx),
    decreases count,
{
    if count == 0 {
        assert(is_recent_selection(keys, 0, Seq::<int>::empty()));
    } else {
        lemma_selection_exists(keys, (count - 1) as nat);
        let idx = selected_positions(keys, (count - 1) as nat);
        if count - 1 >= keys.len() {
            assert(is_recent_selection(keys, count, idx));
        } else {
            lemma_short_sequence_misses(idx, keys.len() as int);
            let r = lemma_best_outside(keys, idx, keys.len() as int);
            let m = r->0;
            let next = idx.push(m);
            assert forall|k: int, i: int|
                #![trigger ranks_before(keys, next[i], k)]
                0 <= k < keys.len() && !next.contains(k) && 0 <= i < next.len() implies ranks_before(
                keys,
                next[i],
                k,
            ) by {
                assert(!idx.contains(k)) by {
                    if idx.contains(k) {
                        let j = choose|j: int| 0 <= j < idx.len() && idx[j] == k;
                        assert(next[j] == k);
                    }
                }
                if i < idx.len() {
                    assert(next[i] == idx[i]);
                    assert(ranks_before(keys, idx[i], k));
                } else {
                    assert(next[i] == m);
                    assert(k != m);
                }
            }
            assert forall|i: int, j: int| 0 <= i < j < next.len() implies ranks_before(
                keys,
                #[trigger] next[i],
                #[trigger] next[j],
            ) by {
                if j == idx.len() {
                    assert(next[i] == idx[i]);
                    assert(ranks_before(keys, idx[i], m));
                } else {
                    assert(next[i] == idx[i] && next[j] == idx[j]);
                }
            }
            assert(is_recent_selection(keys, count, next));
        }
    }
}

/// The kept positions form the selection of the most recent rows.
pub proof fn lemma_selected_positions(keys: Seq<KeyView>, count: nat)
    ensures
        is_recent_selection(keys, count, selected_positions(keys, count)),
{
    lemma_selection_exists(keys, count);
}

/// As many rows are kept as the limit allows: all of them when there are
/// fewer rows than the limit.
pub proof fn lemma_kept_count<T>(rows: Seq<T>, keys: Seq<KeyView>, count: nat)
    requires
        rows.len() == keys.len(),
    ensures
        recent_rows(rows, keys, count).len() == kept_len(count, rows.len()),
{
    lemma_selected_positions(keys, count);
}

/// A limit of zero keeps no row.
pub proof fn lemma_zero_limit_keeps_nothing<T>(rows: Seq<T>, keys: Seq<KeyView>)
    requires
        rows.len() == keys.len(),
    ensures
        recent_rows(rows, keys, 0) == Seq::<T>::empty(),
{
    lemma_selected_positions(keys, 0);
    assert(recent_rows(rows, keys, 0) =~= Seq::<T>::empty());
}

/// Every kept row is at least as recent as every row that is dropped, and a
/// row whose time is unknown is kept only when every row with a known time
/// is kept.
pub proof fn lemma_kept_rows_are_newest(keys: Seq<KeyView>, count: nat, i: int, k: int)
    requires
        0 <= i < selected_positions(keys, count).len(),
        0 <= k < keys.len(),
        !selected_positions(keys, count).contains(k),
    ensures
        !newer(keys[k].0, keys[selected_positions(keys, count)[i]].0),
        keys[k].0 is Some ==> keys[selected_positions(keys, count)[i]].0 is Some,
{
    lemma_selected_positions(keys, count);
    let idx = selected_positions(keys, count);
    assert(ranks_before(keys, idx[i], k));
}

/// A limit at least as large as the number of rows keeps every row.
pub proof fn lemma_large_limit_keeps_all(keys: Seq<KeyView>, count: nat, k: int)
    requires
        keys.len() <= count,
        0 <= k < keys.len(),
    ensures
        selected_positions(keys, count).contains(k),
{
    lemma_selected_positions(keys, count);
    let idx = selected_positions(keys, count);
    assert forall|a: int, b: int| 0 <= a < b < idx.len() implies #[trigger] idx[a] != #[trigger] idx[b] by {
        assert(ranks_before(keys, idx[a], idx[b]));
        lemma_ranks_order(keys, idx[a], idx[a]);
    }
    lemma_distinct_full_covers(idx, keys.len() as int, k);
}

/// Limiting the rows a limit kept, by their own keys and the same limit,
/// keeps them all in the same order.
pub proof fn lemma_limit_idempotent<T>(rows: Seq<T>, keys: Seq<KeyView>, count: nat)
    requires
        rows.len() == keys.len(),
    ensures
        recent_rows(recent_rows(rows, keys, count), recent_rows(keys, keys, count), count)
            == recent_rows(rows, keys, count),
{
    lemma_selected_positions(keys, count);
    let idx = selected_positions(keys, count);
    let keys2 = recent_rows(keys, keys, count);
    let rows2 = recent_rows(rows, keys, count);
    let ident = Seq::new(idx.len(), |i: int| i);
    assert forall|i: int, j: int| 0 <= i < j < ident.len() implies ranks_before(
        keys2,
        #[trigger] ident[i],
        #[trigger] ident[j],
    ) by {
        assert(ranks_before(keys, idx[i], idx[j]));
        assert(keys2[i] == keys[idx[i]] && keys2[j] == keys[idx[j]]);
    }
    assert forall|k: int, i: int|
        #![trigger ranks_before(keys2, ident[i], k)]
        0 <= k < keys2.len() && !ident.contains(k) && 0 <= i < ident.len() implies ranks_before(
        keys2,
        ident[i],
        k,
    ) by {
        assert(ident[k] == k);
    }
    assert(is_recent_selection(keys2, count, ident));
    lemma_selected_positions(keys2, count);
    lemma_selection_unique(keys2, count, ident, selected_positions(keys2, count));
    assert(recent_rows(rows2, keys2, count) =~= rows2);
}

/// The kept rows are rows of the input, none of them kept twice.
pub proof fn lemma_kept_rows_are_distinct_input_rows(keys: Seq<KeyView>, count: nat, i: int, j: int)
    requires
        0 <= i < selected_positions(keys, count).len(),
        0 <= j < selected_positions(keys, count).len(),
        i != j,
    ensures
        0 <= selected_positions(keys, count)[i] < keys.len(),
        selected_positions(keys, count)[i] != selected_positions(keys, count)[j],
{
    lemma_selected_positions(keys, count);
    let idx = selected_positions(keys, count);
    lemma_ranks_order(keys, idx[i], idx[i]);
    if i < j {
        assert(ranks_before(keys, idx[i], idx[j]));
    } else {
        assert(ranks_before(keys, idx[j], idx[i]));
    }
}

/// A sequence of `n` distinct positions below `n` lists every position
/// below `n`.
proof fn lemma_distinct_full_covers(s: Seq<int>, n: int, k: int)
    requires
        s.len() == n,
        forall|i: int| 0 <= i < n ==> 0 <= #[trigger] s[i] < n,
        forall|i: int, j: int| 0 <= i < j < n ==> #[trigger] s[i] != #[trigger] s[j],
        0 <= k < n,
    ensures
        s.contains(k),
{
    if !s.contains(k) {
        assert(s.no_duplicates());
        vstd::seq_lib::seq_to_set_is_finite(s);
        s.unique_seq_to_set();
        let r = vstd::set_lib::set_int_range(0, n);
        vstd::set_lib::lemma_int_range(0, n);
        assert(s.to_set().subset_of(r.remove(k)));
        vstd::set_lib::lemma_len_subset(s.to_set(), r.remove(k));
    }
}

/// The keys of the rows kept, best first.
pub open spec fn kept_keys(keys: Seq<KeyView>, count: nat) -> Seq<KeyView> {
    recent_rows(keys, keys, count)
}

/// When no two rows share a key, which rows are kept, and in what order,
/// does not depend on the order the rows come in: rearranging the rows by
/// the permutation `perm` keeps the same keys in the same order.
pub proof fn lemma_membership_ignores_row_order(keys: Seq<KeyView>, perm: Seq<int>, count: nat)
    requires
        perm.len() == keys.len(),
        forall|i: int| 0 <= i < perm.len() ==> 0 <= #[trigger] perm[i] < keys.len(),
        forall|i: int, j: int| 0 <= i < j < perm.len() ==> #[trigger] perm[i] != #[trigger] perm[j],
        forall|i: int, j: int| 0 <= i < j < keys.len() ==> #[trigger] keys[i] != #[trigger] keys[j],
    ensures
        kept_keys(perm.map_values(|p: int| keys[p]), count) == kept_keys(keys, count),
{
    let n = keys.len() as int;
    let keys2 = perm.map_values(|p: int| keys[p]);
    lemma_selected_positions(keys, count);
    let idx = selected_positions(keys, count);
    assert forall|k: int| 0 <= k < n implies perm.contains(k) by {
        lemma_distinct_full_covers(perm, n, k);
    }
    let idx2 = idx.map_values(|k: int| choose|i: int| 0 <= i < n && perm[i] == k);
    assert forall|t: int| 0 <= t < idx2.len() implies 0 <= #[trigger] idx2[t] < n && perm[idx2[t]]
        == idx[t] by {
        assert(perm.contains(idx[t]));
    }
    // Distinct keys never tie, so ranking follows the keys alone.
    assert forall|a: int, b: int|
        0 <= a < n && 0 <= b < n && a != b && ranks_before(keys, a, b) implies key_precedes(
        keys[a],
        keys[b],
    ) by {
        if a < b {
            assert(keys[a] != keys[b]);
        } else {
            assert(keys[b] != keys[a]);
        }
    }
    assert forall|s: int, t: int| 0 <= s < t < idx2.len() implies ranks_before(
        keys2,
        #[trigger] idx2[s],
        #[trigger] idx2[t],
    ) by {
        assert(ranks_before(keys, idx[s], idx[t]));
        lemma_ranks_order(keys, idx[s], idx[s]);
        assert(keys2[idx2[s]] == keys[idx[s]]);
        assert(keys2[idx2[t]] == keys[idx[t]]);
    }
    assert forall|k2: int, t: int|
        #![trigger ranks_before(keys2, idx2[t], k2)]
        0 <= k2 < n && !idx2.contains(k2) && 0 <= t < idx2.len() implies ranks_before(
        keys2,
        idx2[t],
        k2,
    ) by {
        let k = perm[k2];
        assert(!idx.contains(k)) by {
            if idx.contains(k) {
                let u = choose|u: int| 0 <= u < idx.len() && idx[u] == k;
                assert(perm[idx2[u]] == k);
                if idx2[u] != k2 {
                    if idx2[u] < k2 {
                        assert(perm[idx2[u]] != perm[k2]);
                    } else {
                        assert(perm[k2] != perm[idx2[u]]);
                    }
                }
                assert(idx2[u] == k2);
            }
        }
        assert(ranks_before(keys, idx[t], k));
        lemma_ranks_order(keys, k, k);
        assert(keys2[idx2[t]] == keys[idx[t]]);
        assert(keys2[k2] == keys[k]);
    }
    assert(is_recent_selection(keys2, count, idx2));
    lemma_selected_positions(keys2, count);
    lemma_selection_unique(keys2, count, idx2, selected_positions(keys2, count));
    assert(kept_keys(keys2, count) =~= kept_keys(keys, count));
}

/// The smaller of two limits.
pub open spec fn min_limit(m: nat, n: nat) -> nat {
    if m < n {
        m
    } else {
        n
    }
}

/// Limiting to `m` rows and then the rows kept, by their own keys, to `n`
/// rows keeps the same rows in the same order as limiting once to the
/// smaller of `m` and `n`.
pub proof fn lemma_limit_twice<T>(rows: Seq<T>, keys: Seq<KeyView>, m: nat, n: nat)
    requires
        rows.len() == keys.len(),
    ensures
        recent_rows(recent_rows(rows, keys, m), recent_rows(keys, keys, m), n) == recent_rows(
            rows,
            keys,
            min_limit(m, n),
        ),
{
    lemma_selected_positions(keys, m);
    let idx = selected_positions(keys, m);
    let keys2 = recent_rows(keys, keys, m);
    let rows2 = recent_rows(rows, keys, m);
    let t = kept_len(n, idx.len());
    // Among the rows kept first, the best `t` are the first `t`.
    let ident = Seq::new(t, |i: int| i);
    assert forall|i: int, j: int| 0 <= i < j < ident.len() implies ranks_before(
        keys2,
        #[trigger] ident[i],
        #[trigger] ident[j],
    ) by {
        assert(ranks_before(keys, idx[i], idx[j]));
        assert(keys2[i] == keys[idx[i]] && keys2[j] == keys[idx[j]]);
    }
    assert forall|k: int, i: int|
        #![trigger ranks_before(keys2, ident[i], k)]
        0 <= k < keys2.len() && !ident.contains(k) && 0 <= i < ident.len() implies ranks_before(
        keys2,
        ident[i],
        k,
    ) by {
        if k < t {
            assert(ident[k] == k);
        }
        assert(ranks_before(keys, idx[i], idx[k]));
        assert(keys2[i] == keys[idx[i]] && keys2[k] == keys[idx[k]]);
    }
    assert(is_recent_selection(keys2, n, ident));
    lemma_selected_positions(keys2, n);
    lemma_selection_unique(keys2, n, ident, selected_positions(keys2, n));
    // The first `t` rows kept under `m` are the rows kept under the smaller limit.
    let front = idx.take(t as int);
    assert forall|k: int, i: int|
        #![trigger ranks_before(keys, front[i], k)]
        0 <= k < keys.len() && !front.contains(k) && 0 <= i < front.len() implies ranks_before(
        keys,
        front[i],
        k,
    ) by {
        assert(front[i] == idx[i]);
        if idx.contains(k) {
            let j = choose|j: int| 0 <= j < idx.len() && idx[j] == k;
            if j < t {
                assert(front[j] == k);
            }
            assert(ranks_before(keys, idx[i], idx[j]));
        } else {
            assert(ranks_before(keys, idx[i], k));
        }
    }
    assert forall|i: int, j: int| 0 <= i < j < front.len() implies ranks_before(
        keys,
        #[trigger] front[i],
        #[trigger] front[j],
    ) by {
        assert(front[i] == idx[i] && front[j] == idx[j]);
    }
    assert(is_recent_selection(keys, min_limit(m, n), front));
    lemma_selected_positions(keys, min_limit(m, n));
    lemma_selection_unique(keys, min_limit(m, n), front, selected_positions(keys, min_limit(m, n)));
    assert(recent_rows(rows2, keys2, n) =~= recent_rows(rows, keys, min_limit(m, n)));
}

} // verus!
