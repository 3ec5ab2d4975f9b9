//! The durable read-state store: an append-only record of `(timestamp, link)`
//! keys already acknowledged as read, and its line format
//! `epoch_seconds,link`.
//!
//! Presence of a key, not its count, is the read signal: duplicate lines are
//! tolerated, and a line that does not parse is ignored.
use vstd::prelude::*;
use crate::entry::{Entry, entry_key, bytes_eq, copy_range, copy_bytes};
use crate::textfmt::{
    spec_i64_text, spec_parse_i64, format_i64, parse_i64_range, lemma_i64_text_bytes,
    lemma_i64_text_parses, is_digit, MINUS,
};

verus! {

pub const COMMA: u8 = 44;
pub const NEWLINE: u8 = 10;

/// One persisted acknowledgement: the identity key of an entry that has
/// already been presented (or bulk-marked).
pub struct ReadRecord {
    pub timestamp: i64,
    pub link: Vec<u8>,
}

pub open spec fn record_key(r: ReadRecord) -> (int, Seq<u8>) {
    (r.timestamp as int, r.link@)
}

/// The keys held by a sequence of records, in store order.
pub open spec fn keys_of(s: Seq<ReadRecord>) -> Seq<(int, Seq<u8>)> {
    s.map_values(|r: ReadRecord| record_key(r))
}

/// Presence of a key among the stored keys.
pub open spec fn has_key(ks: Seq<(int, Seq<u8>)>, k: (int, Seq<u8>)) -> bool {
    ks.contains(k)
}

/// Linear scan of the store for a key.
pub fn store_contains(store: &Vec<ReadRecord>, timestamp: i64, link: &Vec<u8>) -> (r: bool)
    ensures
        r == has_key(keys_of(store@), (timestamp as int, link@)),
{
    let ghost k = (timestamp as int, link@);
    let mut i: usize = 0;
    while i < store.len()
        invariant
            i <= store@.len(),
            forall|j: int| 0 <= j < i ==> record_key(#[trigger] store@[j]) != k,
            k == (timestamp as int, link@),
        decreases store@.len() - i,
    {
        if store[i].timestamp == timestamp && bytes_eq(&store[i].link, link) {
            proof {
                assert(keys_of(store@)[i as int] == k);
            }
            return true;
        }
        i = i + 1;
    }
    proof {
        assert forall|j: int| 0 <= j < keys_of(store@).len() implies keys_of(store@)[j] != k by {
            assert(keys_of(store@)[j] == record_key(store@[j]));
        }
    }
    false
}

/// The persisted line for a key: decimal timestamp, a comma, the link, a
/// newline.
pub open spec fn spec_record_line(ts: int, link: Seq<u8>) -> Seq<u8> {
    spec_i64_text(ts) + seq![COMMA] + link + seq![NEWLINE]
}

pub fn record_line(timestamp: i64, link: &Vec<u8>) -> (r: Vec<u8>)
    ensures
        r@ == spec_record_line(timestamp as int, link@),
{
    let mut out = format_i64(timestamp);
    out.push(COMMA);
    let mut l = copy_bytes(link);
    out.append(&mut l);
    out.push(NEWLINE);
    proof {
        assert(out@ =~= spec_record_line(timestamp as int, link@));
    }
    out
}

/// What one commit does to the stored keys: append the key unless present.
pub open spec fn spec_commit(ks: Seq<(int, Seq<u8>)>, k: (int, Seq<u8>)) -> Seq<(int, Seq<u8>)> {
    if has_key(ks, k) {
        ks
    } else {
        ks.push(k)
    }
}

/// The dispatcher's commit step, guarded by the idempotency scan: append the
/// key to the in-memory store unless already present, and hand back the line
/// to append to the durable store (`None` when nothing is to be written).
pub fn commit_read(store: &mut Vec<ReadRecord>, timestamp: i64, link: &Vec<u8>) -> (line: Option<
    Vec<u8>,
>)
    ensures
        keys_of(final(store)@) == spec_commit(keys_of(old(store)@), (timestamp as int, link@)),
        has_key(keys_of(old(store)@), (timestamp as int, link@)) ==> final(store)@ == old(store)@
            && line is None,
        !has_key(keys_of(old(store)@), (timestamp as int, link@)) ==> (line matches Some(l)
            && l@ == spec_record_line(timestamp as int, link@)),
{
    if store_contains(store, timestamp, link) {
        None
    } else {
        let rec = ReadRecord { timestamp, link: copy_bytes(link) };
        store.push(rec);
        proof {
            assert(keys_of(store@) =~= keys_of(old(store)@).push((timestamp as int, link@)));
        }
        Some(record_line(timestamp, link))
    }
}

/// The entry with its in-memory acknowledged flag raised.
pub open spec fn acked(e: Entry) -> Entry {
    Entry { acknowledged: true, ..e }
}

/// The keys of the not-yet-acknowledged entries, in order.
pub open spec fn spec_unacked_keys(s: Seq<Entry>) -> Seq<(int, Seq<u8>)>
    decreases s.len(),
{
    if s.len() == 0 {
        Seq::empty()
    } else {
        spec_unacked_keys(s.drop_last()) + (if !s.last().acknowledged {
            seq![entry_key(s.last())]
        } else {
            Seq::empty()
        })
    }
}

/// The one batch write for the not-yet-acknowledged entries.
pub open spec fn spec_batch_lines(s: Seq<Entry>) -> Seq<u8>
    decreases s.len(),
{
    if s.len() == 0 {
        Seq::empty()
    } else {
        spec_batch_lines(s.drop_last()) + (if !s.last().acknowledged {
            spec_record_line(s.last().timestamp as int, s.last().link@)
        } else {
            Seq::empty()
        })
    }
}

/// The bootstrap bulk acknowledgement: every entry not yet acknowledged in
/// memory is appended to the store and marked acknowledged, in one batch;
/// entries already acknowledged during this run are skipped. Returns the
/// batch to append to the durable store. No notification is involved.
pub fn mark_all_as_read(entries: &mut Vec<Entry>, store: &mut Vec<ReadRecord>) -> (batch: Vec<u8>)
    ensures
        final(entries)@.len() == old(entries)@.len(),
        forall|i: int|
            0 <= i < old(entries)@.len() ==> final(entries)@[i] == acked(old(entries)@[i]),
        keys_of(final(store)@) == keys_of(old(store)@) + spec_unacked_keys(old(entries)@),
        batch@ == spec_batch_lines(old(entries)@),
{
    let ghost orig = old(entries)@;
    let mut out: Vec<Entry> = Vec::new();
    let mut batch: Vec<u8> = Vec::new();
    proof {
        assert(orig.take(0) =~= Seq::<Entry>::empty());
        assert(keys_of(store@) =~= keys_of(store@) + spec_unacked_keys(orig.take(0)));
        assert(batch@ =~= spec_batch_lines(orig.take(0)));
        assert(entries@ =~= orig.skip(0));
    }
    while entries.len() > 0
        invariant
            out@.len() <= orig.len(),
            entries@ == orig.skip(out@.len() as int),
            forall|j: int| 0 <= j < out@.len() ==> out@[j] == acked(orig[j]),
            keys_of(store@) == keys_of(old(store)@) + spec_unacked_keys(
                orig.take(out@.len() as int),
            ),
            batch@ == spec_batch_lines(orig.take(out@.len() as int)),
        decreases entries@.len(),
    {
        let ghost i = out@.len() as int;
        let e = entries.remove(0);
        proof {
            assert(e == orig[i]);
            assert(entries@ =~= orig.skip(i + 1));
            assert(orig.take(i + 1).drop_last() =~= orig.take(i));
            assert(orig.take(i + 1).last() == orig[i]);
        }
        if !e.acknowledged {
            let mut line = record_line(e.timestamp, &e.link);
            batch.append(&mut line);
            let rec = ReadRecord { timestamp: e.timestamp, link: copy_bytes(&e.link) };
            store.push(rec);
            proof {
                assert(keys_of(store@) =~= (keys_of(old(store)@) + spec_unacked_keys(orig.take(i)))
                    .push(entry_key(orig[i])));
                assert(keys_of(store@) =~= keys_of(old(store)@) + spec_unacked_keys(
                    orig.take(i + 1),
                ));
                assert(batch@ =~= spec_batch_lines(orig.take(i + 1)));
            }
        } else {
            proof {
                assert(spec_unacked_keys(orig.take(i + 1)) =~= spec_unacked_keys(orig.take(i)));
                assert(spec_batch_lines(orig.take(i + 1)) =~= spec_batch_lines(orig.take(i)));
            }
        }
        let mut e2 = e;
        e2.acknowledged = true;
        out.push(e2);
    }
    proof {
        assert(orig.take(out@.len() as int) =~= orig);
    }
    *entries = out;
    batch
}

/// First index of `c` in `s`, or `s.len()` when `c` does not occur.
pub open spec fn find_byte(s: Seq<u8>, c: u8) -> nat
    decreases s.len(),
{
    if s.len() == 0 {
        0
    } else if s[0] == c {
        0
    } else {
        1 + find_byte(s.drop_first(), c)
    }
}

/// `find_byte` is exactly the first occurrence.
pub proof fn lemma_find_byte_at(s: Seq<u8>, c: u8, i: int)
    requires
        0 <= i <= s.len(),
        forall|j: int| 0 <= j < i ==> s[j] != c,
        i < s.len() ==> s[i] == c,
        i == s.len() ==> forall|j: int| 0 <= j < s.len() ==> s[j] != c,
    ensures
        find_byte(s, c) == i,
    decreases s.len(),
{
    if s.len() == 0 {
    } else if s[0] == c {
    } else {
        lemma_find_byte_at(s.drop_first(), c, i - 1);
    }
}

/// One store line: the decimal timestamp up to the first comma, then the
/// link. A line with no comma, or whose timestamp does not parse, is not a
/// record.
pub open spec fn spec_parse_record(line: Seq<u8>) -> Option<(int, Seq<u8>)> {
    let ci = find_byte(line, COMMA);
    if ci + 1 <= line.len() {
        match spec_parse_i64(line.take(ci as int)) {
            Some(v) => Some((v, line.skip(ci + 1 as int))),
            None => None,
        }
    } else {
        None
    }
}

/// The records of a whole store text: lines split at newlines, in order,
/// lines that are not records ignored.
pub open spec fn spec_parse_store(t: Seq<u8>) -> Seq<(int, Seq<u8>)>
    decreases t.len(),
{
    if t.len() == 0 {
        Seq::empty()
    } else {
        let ni = find_byte(t, NEWLINE);
        let head = match spec_parse_record(t.take(ni as int)) {
            Some(k) => seq![k],
            None => Seq::empty(),
        };
        if ni + 1 <= t.len() {
            head + spec_parse_store(t.skip(ni + 1 as int))
        } else {
            head
        }
    }
}

/// `find_byte` is at most the length, finds `c`, and nothing before it is `c`.
pub proof fn lemma_find_byte(s: Seq<u8>, c: u8)
    ensures
        find_byte(s, c) <= s.len(),
        find_byte(s, c) < s.len() ==> s[find_byte(s, c) as int] == c,
        forall|j: int| 0 <= j < find_byte(s, c) ==> s[j] != c,
    decreases s.len(),
{
    if s.len() == 0 {
    } else if s[0] == c {
    } else {
        lemma_find_byte(s.drop_first(), c);
        assert forall|j: int| 0 <= j < find_byte(s, c) implies s[j] != c by {
            if j > 0 {
                assert(s[j] == s.drop_first()[j - 1]);
            }
        }
        if find_byte(s, c) < s.len() {
            assert(s[find_byte(s, c) as int] == s.drop_first()[find_byte(s, c) - 1]);
        }
    }
}

/// A store text in which every line is newline-terminated, as the store's
/// own writes keep it.
pub open spec fn newline_terminated(t: Seq<u8>) -> bool {
    t.len() == 0 || t.last() == NEWLINE
}

/// Parsing distributes over appending to a newline-terminated text.
pub proof fn lemma_parse_store_append(t: Seq<u8>, u: Seq<u8>)
    requires
        newline_terminated(t),
    ensures
        spec_parse_store(t + u) == spec_parse_store(t) + spec_parse_store(u),
    decreases t.len(),
{
    if t.len() == 0 {
        assert(t + u =~= u);
        assert(spec_parse_store(t) =~= Seq::<(int, Seq<u8>)>::empty());
        assert(spec_parse_store(t) + spec_parse_store(u) =~= spec_parse_store(u));
    } else {
        lemma_find_byte(t, NEWLINE);
        let ni = find_byte(t, NEWLINE) as int;
        assert(ni < t.len()) by {
            if ni == t.len() {
                assert(t[t.len() - 1] != NEWLINE);
            }
        }
        assert forall|j: int| 0 <= j < ni implies (t + u)[j] != NEWLINE by {
            assert((t + u)[j] == t[j]);
        }
        assert((t + u)[ni] == t[ni]);
        lemma_find_byte_at(t + u, NEWLINE, ni);
        assert((t + u).take(ni) =~= t.take(ni));
        assert((t + u).skip(ni + 1) =~= t.skip(ni + 1) + u);
        assert(newline_terminated(t.skip(ni + 1))) by {
            if t.skip(ni + 1).len() > 0 {
                assert(t.skip(ni + 1).last() == t.last());
            }
        }
        lemma_parse_store_append(t.skip(ni + 1), u);
        let head = match spec_parse_record(t.take(ni)) {
            Some(k) => seq![k],
            None => Seq::<(int, Seq<u8>)>::empty(),
        };
        assert(spec_parse_store(t) == head + spec_parse_store(t.skip(ni + 1)));
        assert(spec_parse_store(t + u) == head + (spec_parse_store(t.skip(ni + 1))
            + spec_parse_store(u)));
        assert(head + (spec_parse_store(t.skip(ni + 1)) + spec_parse_store(u)) =~= (head
            + spec_parse_store(t.skip(ni + 1))) + spec_parse_store(u));
    }
}

/// The line written for a key parses back to exactly that key, provided the
/// link holds no newline (a link with one would split the line).
pub proof fn lemma_record_line_parses(ts: int, link: Seq<u8>)
    requires
        i64::MIN <= ts <= i64::MAX,
        !link.contains(NEWLINE),
    ensures
        spec_record_line(ts, link).len() > 0,
        newline_terminated(spec_record_line(ts, link)),
        spec_parse_store(spec_record_line(ts, link)) == seq![(ts, link)],
{
    let dt = spec_i64_text(ts);
    let line = dt + seq![COMMA] + link;
    let t = spec_record_line(ts, link);
    lemma_i64_text_bytes(ts);
    assert(t =~= line + seq![NEWLINE]);
    assert(t.last() == NEWLINE);
    assert forall|j: int| 0 <= j < line.len() implies t[j] != NEWLINE by {
        if j < dt.len() {
            assert(is_digit(dt[j]) || dt[j] == MINUS);
        } else if j == dt.len() {
            assert(t[j] == COMMA);
        } else {
            let li = j - dt.len() - 1;
            assert(t[j] == link[li]);
            if link[li] == NEWLINE {
                assert(link.contains(NEWLINE));
            }
        }
    }
    lemma_find_byte_at(t, NEWLINE, line.len() as int);
    assert(t.take(line.len() as int) =~= line);
    assert forall|j: int| 0 <= j < dt.len() implies line[j] != COMMA by {
        assert(is_digit(dt[j]) || dt[j] == MINUS);
    }
    assert(line[dt.len() as int] == COMMA);
    lemma_find_byte_at(line, COMMA, dt.len() as int);
    assert(line.take(dt.len() as int) =~= dt);
    lemma_i64_text_parses(ts);
    assert(line.skip(dt.len() + 1 as int) =~= link);
    assert(spec_parse_record(line) == Some((ts, link)));
    assert(spec_parse_record(t.take(line.len() as int)) == Some((ts, link)));
    let rest_empty = t.skip(line.len() + 1 as int);
    assert(rest_empty =~= Seq::<u8>::empty());
    assert(spec_parse_store(rest_empty) =~= Seq::<(int, Seq<u8>)>::empty());
    assert(find_byte(t, NEWLINE) == line.len());
    assert(spec_parse_store(t) == seq![(ts, link)] + spec_parse_store(rest_empty));
    assert(seq![(ts, link)] + spec_parse_store(rest_empty) =~= seq![(ts, link)]);
}

/// What the dispatcher appends is durable: the next cycle's read of the
/// grown text sees exactly the old records plus the committed key.
pub proof fn lemma_commit_durable(t: Seq<u8>, ts: int, link: Seq<u8>)
    requires
        newline_terminated(t),
        i64::MIN <= ts <= i64::MAX,
        !link.contains(NEWLINE),
    ensures
        spec_parse_store(t + spec_record_line(ts, link)) == spec_parse_store(t).push((ts, link)),
        newline_terminated(t + spec_record_line(ts, link)),
{
    lemma_parse_store_append(t, spec_record_line(ts, link));
    lemma_record_line_parses(ts, link);
    assert(spec_parse_store(t) + seq![(ts, link)] =~= spec_parse_store(t).push((ts, link)));
    let r = spec_record_line(ts, link);
    assert((t + r).last() == r.last());
    assert(r.last() == NEWLINE) by {
        assert(newline_terminated(r) && r.len() > 0);
    }
}

/// The bulk batch is durable too: appended to a well-formed store text, it
/// adds exactly the unacknowledged entries' keys to what the next cycle
/// reads (links with a newline would split their line and are excluded).
pub proof fn lemma_batch_durable(t: Seq<u8>, entries: Seq<Entry>)
    requires
        newline_terminated(t),
        forall|i: int| 0 <= i < entries.len() ==> !(#[trigger] entries[i]).link@.contains(NEWLINE),
    ensures
        spec_parse_store(t + spec_batch_lines(entries)) == spec_parse_store(t)
            + spec_unacked_keys(entries),
        newline_terminated(t + spec_batch_lines(entries)),
    decreases entries.len(),
{
    if entries.len() == 0 {
        assert(t + spec_batch_lines(entries) =~= t);
        assert(spec_parse_store(t) + spec_unacked_keys(entries) =~= spec_parse_store(t));
    } else {
        let pre = entries.drop_last();
        assert forall|i: int| 0 <= i < pre.len() implies !(#[trigger] pre[i]).link@.contains(
            NEWLINE,
        ) by {
            assert(pre[i] == entries[i]);
        }
        lemma_batch_durable(t, pre);
        let e = entries.last();
        let t2 = t + spec_batch_lines(pre);
        if !e.acknowledged {
            lemma_commit_durable(t2, e.timestamp as int, e.link@);
            assert(t + spec_batch_lines(entries) =~= t2 + spec_record_line(
                e.timestamp as int,
                e.link@,
            ));
            assert(spec_parse_store(t2).push(entry_key(e)) =~= (spec_parse_store(t)
                + spec_unacked_keys(pre)) + seq![entry_key(e)]);
            assert((spec_parse_store(t) + spec_unacked_keys(pre)) + seq![entry_key(e)]
                =~= spec_parse_store(t) + spec_unacked_keys(entries));
        } else {
            assert(t + spec_batch_lines(entries) =~= t2);
            assert(spec_unacked_keys(entries) =~= spec_unacked_keys(pre));
        }
    }
}

/// Parse the store line `text[from..to]`.
fn parse_record_range(text: &Vec<u8>, from: usize, to: usize) -> (r: Option<ReadRecord>)
    requires
        from <= to <= text@.len(),
    ensures
        ({
            let sp = spec_parse_record(text@.subrange(from as int, to as int));
            match r {
                Some(rec) => sp == Some(record_key(rec)),
                None => sp is None,
            }
        }),
{
    let ghost line = text@.subrange(from as int, to as int);
    let mut ci: usize = from;
    while ci < to && text[ci] != COMMA
        invariant
            from <= ci <= to <= text@.len(),
            forall|j: int| from <= j < ci ==> text@[j] != COMMA,
        decreases to - ci,
    {
        ci = ci + 1;
    }
    proof {
        assert forall|j: int| 0 <= j < ci - from implies line[j] != COMMA by {
            assert(line[j] == text@[from + j]);
        }
        if ci < to {
            assert(line[ci - from] == COMMA);
        }
        lemma_find_byte_at(line, COMMA, ci - from);
    }
    if ci == to {
        return None;
    }
    let ts = parse_i64_range(text, from, ci);
    proof {
        assert(line.take(ci - from) =~= text@.subrange(from as int, ci as int));
    }
    match ts {
        None => None,
        Some(v) => {
            let link = copy_range(text, ci + 1, to);
            proof {
                assert(line.skip(ci - from + 1) =~= text@.subrange(ci + 1, to as int));
            }
            Some(ReadRecord { timestamp: v, link })
        },
    }
}

/// Read the whole store text into records, skipping lines that do not parse.
/// A missing store is the empty text, hence the empty record list.
pub fn parse_store(text: &Vec<u8>) -> (r: Vec<ReadRecord>)
    ensures
        keys_of(r@) == spec_parse_store(text@),
{
    let mut out: Vec<ReadRecord> = Vec::new();
    let mut pos: usize = 0;
    proof {
        assert(text@.skip(0) =~= text@);
        assert(keys_of(out@) + spec_parse_store(text@) =~= spec_parse_store(text@));
    }
    while pos < text.len()
        invariant
            pos <= text@.len(),
            keys_of(out@) + spec_parse_store(text@.skip(pos as int)) == spec_parse_store(text@),
        decreases text@.len() - pos,
    {
        let ghost rest = text@.skip(pos as int);
        let mut end: usize = pos;
        while end < text.len() && text[end] != NEWLINE
            invariant
                pos <= end <= text@.len(),
                forall|j: int| pos <= j < end ==> text@[j] != NEWLINE,
            decreases text@.len() - end,
        {
            end = end + 1;
        }
        proof {
            assert forall|j: int| 0 <= j < end - pos implies rest[j] != NEWLINE by {
                assert(rest[j] == text@[pos + j]);
            }
            if end < text.len() {
                assert(rest[end - pos] == NEWLINE);
            }
            lemma_find_byte_at(rest, NEWLINE, end - pos);
            assert(rest.take(end - pos) =~= text@.subrange(pos as int, end as int));
        }
        let rec = parse_record_range(text, pos, end);
        let ghost head = match spec_parse_record(rest.take(end - pos)) {
            Some(k) => seq![k],
            None => Seq::<(int, Seq<u8>)>::empty(),
        };
        let ghost prev = out@;
        match rec {
            Some(r) => {
                out.push(r);
                proof {
                    assert(keys_of(out@) =~= keys_of(prev) + head);
                }
            },
            None => {
                proof {
                    assert(keys_of(out@) =~= keys_of(prev) + head);
                }
            },
        }
        if end == text.len() {
            proof {
                assert(spec_parse_store(rest) == head);
                assert(keys_of(out@) + spec_parse_store(Seq::<u8>::empty()) =~= keys_of(prev)
                    + spec_parse_store(rest));
            }
            pos = end;
            proof {
                assert(text@.skip(pos as int) =~= Seq::<u8>::empty());
            }
        } else {
            proof {
                assert(rest.skip(end - pos + 1) =~= text@.skip(end + 1));
                assert(spec_parse_store(rest) == head + spec_parse_store(text@.skip(end + 1)));
                assert(keys_of(out@) + spec_parse_store(text@.skip(end + 1)) =~= keys_of(prev)
                    + spec_parse_store(rest));
            }
            pos = end + 1;
        }
    }
    proof {
        assert(text@.skip(pos as int) =~= Seq::<u8>::empty());
        assert(keys_of(out@) =~= keys_of(out@) + spec_parse_store(Seq::<u8>::empty()));
    }
    out
}

} // verus!
