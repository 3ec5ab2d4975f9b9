//! The aggregator's merge step: filter the cycle's working set against the
//! read-state store, then sort the residue into the strict dispatch order.
use vstd::prelude::*;
use crate::entry::{
    Entry, entry_key, entry_le, entry_before, entry_before_exec, lemma_entry_order_total,
    lemma_entry_le_transitive,
};
use crate::store::{ReadRecord, keys_of, has_key, store_contains};
use vstd::multiset::Multiset;

verus! {

/// Is this entry unread with respect to the stored keys?
pub open spec fn unread_pred(ks: Seq<(int, Seq<u8>)>) -> spec_fn(Entry) -> bool {
    |e: Entry| !has_key(ks, entry_key(e))
}

/// The entries whose keys the store does not hold, in their given order.
pub open spec fn unread_of(s: Seq<Entry>, ks: Seq<(int, Seq<u8>)>) -> Seq<Entry> {
    s.filter(unread_pred(ks))
}

/// Sorted in the dispatch order: timestamp descending, then article title
/// descending, then feed title descending.
pub open spec fn sorted(s: Seq<Entry>) -> bool {
    forall|i: int, j: int| 0 <= i < j < s.len() ==> entry_le(s[i], s[j])
}

/// Drop every entry whose identity key is present in the read-state store;
/// the survivors keep their relative order, and none of their keys is stored.
pub fn remove_read_entries(entries: &mut Vec<Entry>, store: &Vec<ReadRecord>)
    ensures
        final(entries)@ == unread_of(old(entries)@, keys_of(store@)),
        forall|i: int|
            0 <= i < final(entries)@.len() ==> !has_key(
                keys_of(store@),
                entry_key(#[trigger] final(entries)@[i]),
            ),
{
    let ghost orig = entries@;
    let ghost pred = unread_pred(keys_of(store@));
    let ghost mut k: int = 0;
    let mut out: Vec<Entry> = Vec::new();
    proof {
        assert(orig.take(0) =~= Seq::<Entry>::empty());
        assert(orig.take(0).filter(pred) =~= Seq::<Entry>::empty()) by {
            reveal(Seq::filter);
        }
        assert(entries@ =~= orig.skip(0));
    }
    while entries.len() > 0
        invariant
            0 <= k <= orig.len(),
            k + entries@.len() == orig.len(),
            entries@ == orig.skip(k),
            out@ == orig.take(k).filter(pred),
            pred == unread_pred(keys_of(store@)),
        decreases entries@.len(),
    {
        let e = entries.remove(0);
        proof {
            assert(e == orig[k]);
            assert(entries@ =~= orig.skip(k + 1));
            assert(orig.take(k + 1) =~= orig.take(k).push(orig[k]));
            orig.take(k).lemma_filter_push(orig[k], pred);
        }
        if !store_contains(store, e.timestamp, &e.link) {
            proof {
                assert(pred(e));
            }
            out.push(e);
        } else {
            proof {
                assert(!pred(e));
            }
        }
        proof {
            assert(out@ == orig.take(k + 1).filter(pred));
            k = k + 1;
        }
    }
    proof {
        assert(orig.take(k) =~= orig);
    }
    *entries = out;
    proof {
        assert forall|i: int| 0 <= i < entries@.len() implies !has_key(
            keys_of(store@),
            entry_key(#[trigger] entries@[i]),
        ) by {
            orig.lemma_filter_pred(pred, i);
        }
    }
}

/// Insert one entry into a sorted queue, keeping it sorted.
fn insert_sorted(out: &mut Vec<Entry>, x: Entry)
    requires
        sorted(old(out)@),
    ensures
        sorted(final(out)@),
        final(out)@.to_multiset() == old(out)@.to_multiset().insert(x),
        final(out)@.len() == old(out)@.len() + 1,
{
    let mut j: usize = 0;
    while j < out.len() && !entry_before_exec(&x, &out[j])
        invariant
            j <= out@.len(),
            forall|k: int| 0 <= k < j ==> entry_le(#[trigger] out@[k], x),
        decreases out@.len() - j,
    {
        j = j + 1;
    }
    let ghost pre = out@;
    out.insert(j, x);
    proof {
        let post = out@;
        assert(post == pre.insert(j as int, x));
        assert forall|a: int, b: int| 0 <= a < b < post.len() implies entry_le(post[a], post[b]) by {
            if b < j {
                assert(post[a] == pre[a] && post[b] == pre[b]);
            } else if a > j {
                assert(post[a] == pre[a - 1] && post[b] == pre[b - 1]);
            } else if a < j && b == j {
                assert(post[a] == pre[a] && post[b] == x);
            } else if a == j && b > j {
                assert(post[a] == x && post[b] == pre[b - 1]);
                if j < pre.len() {
                    assert(entry_before(x, pre[j as int]));
                    lemma_entry_order_total(x, pre[j as int]);
                    if b - 1 > j {
                        assert(entry_le(pre[j as int], pre[b - 1]));
                        lemma_entry_le_transitive(x, pre[j as int], pre[b - 1]);
                    }
                }
            } else if a < j && b > j {
                assert(post[a] == pre[a] && post[b] == pre[b - 1]);
            }
        }
        // multiset bookkeeping: removing the inserted element gives back `pre`
        broadcast use vstd::seq_lib::group_to_multiset_ensures;
        broadcast use vstd::multiset::group_multiset_axioms;

        assert(post.remove(j as int) =~= pre);
        assert(post.remove(j as int).to_multiset() =~= post.to_multiset().remove(x));
        assert(post[j as int] == x);
        assert(post.to_multiset().contains(x)) by {
            assert(post.contains(x));
        }
        assert(post.to_multiset() =~= pre.to_multiset().insert(x));
    }
}

/// Sort the queue into the dispatch order. The result holds exactly the
/// entries given (as a multiset), in sorted order.
pub fn sort_entries(entries: &mut Vec<Entry>)
    ensures
        sorted(final(entries)@),
        final(entries)@.to_multiset() == old(entries)@.to_multiset(),
        final(entries)@.len() == old(entries)@.len(),
{
    let ghost orig = entries@;
    let mut out: Vec<Entry> = Vec::new();
    proof {
        broadcast use vstd::seq_lib::group_to_multiset_ensures;
        broadcast use vstd::multiset::group_multiset_axioms;

        assert(out@.to_multiset().add(entries@.to_multiset()) =~= entries@.to_multiset());
    }
    while entries.len() > 0
        invariant
            sorted(out@),
            out@.to_multiset().add(entries@.to_multiset()) == orig.to_multiset(),
            out@.len() + entries@.len() == orig.len(),
        decreases entries@.len(),
    {
        let ghost pre = entries@;
        let ghost pre_out = out@.to_multiset();
        let x = entries.remove(0);
        insert_sorted(&mut out, x);
        proof {
            broadcast use vstd::seq_lib::group_to_multiset_ensures;
            broadcast use vstd::multiset::group_multiset_axioms;

            assert(entries@.to_multiset() =~= pre.to_multiset().remove(x));
            assert(pre.to_multiset().contains(x)) by {
                assert(pre.contains(x));
            }
            assert(out@.to_multiset().add(entries@.to_multiset()) =~= pre_out.insert(x).add(
                pre.to_multiset().remove(x),
            ));
            assert(pre_out.insert(x).add(pre.to_multiset().remove(x)) =~= pre_out.add(
                pre.to_multiset(),
            ));
        }
    }
    proof {
        broadcast use vstd::seq_lib::group_to_multiset_ensures;
        broadcast use vstd::multiset::group_multiset_axioms;
        broadcast use vstd::multiset::lemma_multiset_empty_len;

        assert(entries@.to_multiset().len() == 0);
        assert(entries@.to_multiset() =~= Multiset::empty());
        assert(out@.to_multiset().add(entries@.to_multiset()) =~= out@.to_multiset());
    }
    *entries = out;
}

/// The aggregator's merge: drop already-read entries, then sort. The result
/// holds exactly the unread entries, in the dispatch order, and none of its
/// keys is in the store.
pub fn aggregate(entries: &mut Vec<Entry>, store: &Vec<ReadRecord>)
    ensures
        sorted(final(entries)@),
        final(entries)@.to_multiset() == unread_of(old(entries)@, keys_of(store@)).to_multiset(),
        forall|i: int|
            0 <= i < final(entries)@.len() ==> !has_key(
                keys_of(store@),
                entry_key(#[trigger] final(entries)@[i]),
            ),
{
    remove_read_entries(entries, store);
    let ghost unread = entries@;
    sort_entries(entries);
    proof {
        broadcast use vstd::seq_lib::group_to_multiset_ensures;

        assert forall|i: int| 0 <= i < entries@.len() implies !has_key(
            keys_of(store@),
            entry_key(#[trigger] entries@[i]),
        ) by {
            assert(entries@.to_multiset().contains(entries@[i])) by {
                assert(entries@.contains(entries@[i]));
            }
            assert(unread.to_multiset().contains(entries@[i]));
            assert(unread.contains(entries@[i]));
            let k = choose|k: int| 0 <= k < unread.len() && unread[k] == entries@[i];
            assert(!has_key(keys_of(store@), entry_key(unread[k])));
        }
    }
}

} // verus!
