//! The library's cross-function laws, stated and proved once: deduplication,
//! idempotent read-marking, determinism of the dispatch order, and the
//! bootstrap acknowledgement clearing later cycles.
use vstd::prelude::*;
use crate::entry::{Entry, entry_key, entry_le, order_tie, lemma_entry_order_total};
use crate::store::{has_key, spec_commit, spec_unacked_keys};
use crate::aggregate::{unread_of, unread_pred, sorted};

verus! {

/// Dedup: whatever the cycle's working set, an entry whose key the store
/// holds never survives the aggregator's filter.
pub proof fn lemma_dedup(entries: Seq<Entry>, ks: Seq<(int, Seq<u8>)>, e: Entry)
    requires
        has_key(ks, entry_key(e)),
    ensures
        !unread_of(entries, ks).contains(e),
{
    if unread_of(entries, ks).contains(e) {
        let i = choose|i: int|
            0 <= i < unread_of(entries, ks).len() && unread_of(entries, ks)[i] == e;
        entries.lemma_filter_pred(unread_pred(ks), i);
    }
}

/// Idempotent mark: one commit makes the key present; a second commit of
/// the same key changes nothing; and an entry carrying a committed key is
/// never in a later cycle's dispatch queue.
pub proof fn lemma_idempotent_mark(ks: Seq<(int, Seq<u8>)>, k: (int, Seq<u8>), entries: Seq<Entry>)
    ensures
        has_key(spec_commit(ks, k), k),
        spec_commit(spec_commit(ks, k), k) == spec_commit(ks, k),
        forall|e: Entry|
            entry_key(e) == k ==> !unread_of(entries, spec_commit(ks, k)).contains(e),
{
    if !has_key(ks, k) {
        assert(ks.push(k)[ks.len() as int] == k);
    }
    assert forall|e: Entry| entry_key(e) == k implies !unread_of(
        entries,
        spec_commit(ks, k),
    ).contains(e) by {
        lemma_dedup(entries, spec_commit(ks, k), e);
    }
}

/// Total order determinism: two queues sorted in the dispatch order that
/// hold the same entries are identical, provided no two distinct entries
/// tie on all three compared fields (entries that tie carry the same
/// identity anyway and may stand in either order).
pub proof fn lemma_order_deterministic(x: Seq<Entry>, y: Seq<Entry>)
    requires
        sorted(x),
        sorted(y),
        x.to_multiset() == y.to_multiset(),
        forall|a: Entry, b: Entry| x.contains(a) && x.contains(b) && order_tie(a, b) ==> a == b,
    ensures
        x == y,
    decreases x.len(),
{
    broadcast use vstd::seq_lib::group_to_multiset_ensures;

    if x.len() == 0 && y.len() == 0 {
        assert(x =~= y);
    } else if x.len() == 0 || y.len() == 0 {
        assert(x.to_multiset().len() == x.len());
        assert(y.to_multiset().len() == y.len());
        assert(false);
    } else {
        assert(x.to_multiset().contains(x[0])) by {
            assert(x.contains(x[0]));
        }
        assert(y.to_multiset().contains(y[0])) by {
            assert(y.contains(y[0]));
        }
        assert(x.contains(y[0]));
        assert(y.contains(x[0]));
        if x[0] != y[0] {
            let i = choose|i: int| 0 <= i < x.len() && x[i] == y[0];
            let m = choose|m: int| 0 <= m < y.len() && y[m] == x[0];
            assert(i != 0 && m != 0);
            assert(entry_le(x[0], x[i]));
            assert(entry_le(y[0], y[m]));
            lemma_entry_order_total(x[0], y[0]);
            assert(order_tie(x[0], y[0]));
            assert(x[0] == y[0]);
        }
        assert(x.drop_first() =~= x.remove(0));
        assert(y.drop_first() =~= y.remove(0));
        assert(x.remove(0).to_multiset() =~= x.to_multiset().remove(x[0]));
        assert(y.remove(0).to_multiset() =~= y.to_multiset().remove(y[0]));
        assert(x.drop_first().to_multiset() == y.drop_first().to_multiset());
        assert(sorted(x.drop_first())) by {
            assert forall|a: int, b: int|
                0 <= a < b < x.drop_first().len() implies entry_le(
                x.drop_first()[a],
                x.drop_first()[b],
            ) by {
                assert(x.drop_first()[a] == x[a + 1] && x.drop_first()[b] == x[b + 1]);
            }
        }
        assert(sorted(y.drop_first())) by {
            assert forall|a: int, b: int|
                0 <= a < b < y.drop_first().len() implies entry_le(
                y.drop_first()[a],
                y.drop_first()[b],
            ) by {
                assert(y.drop_first()[a] == y[a + 1] && y.drop_first()[b] == y[b + 1]);
            }
        }
        assert forall|a: Entry, b: Entry|
            x.drop_first().contains(a) && x.drop_first().contains(b) && order_tie(a, b) implies a
            == b by {
            let ia = choose|ia: int| 0 <= ia < x.drop_first().len() && x.drop_first()[ia] == a;
            let ib = choose|ib: int| 0 <= ib < x.drop_first().len() && x.drop_first()[ib] == b;
            assert(x[ia + 1] == a && x[ib + 1] == b);
            assert(x.contains(a) && x.contains(b));
        }
        lemma_order_deterministic(x.drop_first(), y.drop_first());
        assert(x =~= y) by {
            assert forall|j: int| 0 <= j < x.len() implies x[j] == y[j] by {
                if j > 0 {
                    assert(x[j] == x.drop_first()[j - 1] && y[j] == y.drop_first()[j - 1]);
                }
            }
        }
    }
}

/// Every unacknowledged entry's key is in the bulk batch.
pub proof fn lemma_unacked_keys_contains(s: Seq<Entry>, j: int)
    requires
        0 <= j < s.len(),
        !s[j].acknowledged,
    ensures
        spec_unacked_keys(s).contains(entry_key(s[j])),
    decreases s.len(),
{
    let pre = spec_unacked_keys(s.drop_last());
    if j == s.len() - 1 {
        assert(spec_unacked_keys(s)[pre.len() as int] == entry_key(s[j]));
    } else {
        assert(s.drop_last()[j] == s[j]);
        lemma_unacked_keys_contains(s.drop_last(), j);
        let idx = choose|idx: int| 0 <= idx < pre.len() && pre[idx] == entry_key(s[j]);
        assert(spec_unacked_keys(s)[idx] == entry_key(s[j]));
    }
}

/// Bootstrap clears later cycles: after the flag-enabled first cycle
/// bulk-marks its pending (all unacknowledged) entries without presenting
/// any, a later cycle whose working set carries only those entries' keys
/// dispatches nothing.
pub proof fn lemma_bootstrap_clears(
    entries: Seq<Entry>,
    ks: Seq<(int, Seq<u8>)>,
    later: Seq<Entry>,
)
    requires
        forall|i: int| 0 <= i < entries.len() ==> !(#[trigger] entries[i]).acknowledged,
        forall|i: int|
            0 <= i < later.len() ==> exists|j: int|
                0 <= j < entries.len() && entry_key(#[trigger] later[i]) == entry_key(entries[j]),
    ensures
        unread_of(later, ks + spec_unacked_keys(entries)).len() == 0,
{
    let ks2 = ks + spec_unacked_keys(entries);
    let f = unread_of(later, ks2);
    if f.len() > 0 {
        later.lemma_filter_pred(unread_pred(ks2), 0);
        let e = f[0];
        assert(f.contains(e));
        later.lemma_filter_contains_rev(unread_pred(ks2), e);
        let i = choose|i: int| 0 <= i < later.len() && later[i] == e;
        assert(entry_key(later[i]) == entry_key(e));
        let j = choose|j: int|
            0 <= j < entries.len() && entry_key(later[i]) == entry_key(entries[j]);
        lemma_unacked_keys_contains(entries, j);
        let uk = spec_unacked_keys(entries);
        let idx = choose|idx: int| 0 <= idx < uk.len() && uk[idx] == entry_key(entries[j]);
        assert(ks2[ks.len() + idx] == entry_key(entries[j]));
        assert(has_key(ks2, entry_key(e)));
        assert(false);
    }
}

} // verus!
