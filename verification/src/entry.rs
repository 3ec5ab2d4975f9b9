//! The normalized feed entry, the configured source it came from, and the
//! strict order in which entries are handed to the dispatcher.
//!
//! All text is kept as raw bytes (`Vec<u8>`), so the order below is exactly
//! the byte-wise lexicographic order that Rust gives `String` comparisons.
use vstd::prelude::*;

verus! {

/// One configured feed source, as read from one configuration line:
/// the feed url, an optional display-title override (empty means "use the
/// feed's own title") and an optional open command (empty means the
/// platform default opener).
pub struct Source {
    pub url: Vec<u8>,
    pub title_override: Vec<u8>,
    pub open_command: Vec<u8>,
}

/// One normalized feed item with resolved display metadata.
///
/// `acknowledged` is transient, in-memory state: it records that this run
/// has already written the entry to the read-state store during a bulk
/// mark-all-as-read pass.
pub struct Entry {
    pub acknowledged: bool,
    pub timestamp: i64,
    pub feed_title: Vec<u8>,
    pub open_command: Vec<u8>,
    pub article_title: Vec<u8>,
    pub link: Vec<u8>,
}

/// Strict lexicographic order on byte strings; agrees with the order of
/// Rust's `[u8]` and (via UTF-8) of `str`.
pub open spec fn lex_lt(a: Seq<u8>, b: Seq<u8>) -> bool
    decreases a.len(),
{
    if b.len() == 0 {
        false
    } else if a.len() == 0 {
        true
    } else if a[0] != b[0] {
        a[0] < b[0]
    } else {
        lex_lt(a.drop_first(), b.drop_first())
    }
}

/// `lex_lt` is asymmetric, and two byte strings it orders neither way are equal.
pub proof fn lemma_lex_trichotomy(a: Seq<u8>, b: Seq<u8>)
    ensures
        lex_lt(a, b) ==> !lex_lt(b, a),
        !lex_lt(a, b) && !lex_lt(b, a) ==> a == b,
    decreases a.len() + b.len(),
{
    if a.len() == 0 && b.len() == 0 {
        assert(a =~= b);
    } else if a.len() == 0 || b.len() == 0 {
    } else if a[0] != b[0] {
    } else {
        lemma_lex_trichotomy(a.drop_first(), b.drop_first());
        if !lex_lt(a, b) && !lex_lt(b, a) {
            assert(a.drop_first() == b.drop_first());
            assert(a.len() == b.len()) by {
                assert(a.drop_first().len() == b.drop_first().len());
            }
            assert forall|i: int| 0 <= i < a.len() implies a[i] == b[i] by {
                if i > 0 {
                    assert(a[i] == a.drop_first()[i - 1]);
                    assert(b[i] == b.drop_first()[i - 1]);
                }
            }
            assert(a =~= b);
        }
    }
}

/// `lex_lt` is transitive.
pub proof fn lemma_lex_transitive(a: Seq<u8>, b: Seq<u8>, c: Seq<u8>)
    requires
        lex_lt(a, b),
        lex_lt(b, c),
    ensures
        lex_lt(a, c),
    decreases a.len() + b.len() + c.len(),
{
    if a.len() == 0 {
    } else if a[0] == b[0] && b[0] == c[0] {
        lemma_lex_transitive(a.drop_first(), b.drop_first(), c.drop_first());
    }
}

/// The identity key of an entry: `(timestamp, link)`. Two entries with the
/// same key are the same read-event for deduplication purposes.
pub open spec fn entry_key(e: Entry) -> (int, Seq<u8>) {
    (e.timestamp as int, e.link@)
}

/// `a` is dispatched strictly before `b`: timestamp descending, ties broken
/// by article title descending, then by feed title descending.
pub open spec fn entry_before(a: Entry, b: Entry) -> bool {
    if a.timestamp != b.timestamp {
        a.timestamp > b.timestamp
    } else if a.article_title@ != b.article_title@ {
        lex_lt(b.article_title@, a.article_title@)
    } else {
        lex_lt(b.feed_title@, a.feed_title@)
    }
}

/// The three fields the comparator reads agree on `a` and `b`; such entries
/// may stand in either relative order.
pub open spec fn order_tie(a: Entry, b: Entry) -> bool {
    &&& a.timestamp == b.timestamp
    &&& a.article_title@ == b.article_title@
    &&& a.feed_title@ == b.feed_title@
}

/// `a` need not come after `b` in the dispatch order.
pub open spec fn entry_le(a: Entry, b: Entry) -> bool {
    !entry_before(b, a)
}

/// The dispatch order is total: `entry_before` is asymmetric, and two
/// entries it orders neither way tie on all three compared fields.
pub proof fn lemma_entry_order_total(a: Entry, b: Entry)
    ensures
        entry_before(a, b) ==> !entry_before(b, a),
        !entry_before(a, b) && !entry_before(b, a) ==> order_tie(a, b),
{
    lemma_lex_trichotomy(b.article_title@, a.article_title@);
    lemma_lex_trichotomy(b.feed_title@, a.feed_title@);
}

/// `entry_before` is transitive.
pub proof fn lemma_entry_before_transitive(a: Entry, b: Entry, c: Entry)
    requires
        entry_before(a, b),
        entry_before(b, c),
    ensures
        entry_before(a, c),
{
    if a.timestamp == b.timestamp && b.timestamp == c.timestamp {
        lemma_lex_trichotomy(b.article_title@, a.article_title@);
        lemma_lex_trichotomy(c.article_title@, b.article_title@);
        lemma_lex_trichotomy(c.article_title@, a.article_title@);
        lemma_lex_trichotomy(b.feed_title@, a.feed_title@);
        lemma_lex_trichotomy(c.feed_title@, b.feed_title@);
        if a.article_title@ != b.article_title@ && b.article_title@ != c.article_title@ {
            lemma_lex_transitive(c.article_title@, b.article_title@, a.article_title@);
        }
        if a.article_title@ == b.article_title@ && b.article_title@ == c.article_title@ {
            lemma_lex_transitive(c.feed_title@, b.feed_title@, a.feed_title@);
        }
    }
}

/// `entry_le` is transitive.
pub proof fn lemma_entry_le_transitive(a: Entry, b: Entry, c: Entry)
    requires
        entry_le(a, b),
        entry_le(b, c),
    ensures
        entry_le(a, c),
{
    if entry_before(c, a) {
        lemma_entry_order_total(a, b);
        lemma_entry_order_total(b, c);
        if entry_before(a, b) {
            lemma_entry_before_transitive(c, a, b);
        } else {
            lemma_entry_order_total(c, a);
        }
    }
}

/// Equality of two byte strings.
pub fn bytes_eq(a: &Vec<u8>, b: &Vec<u8>) -> (r: bool)
    ensures
        r == (a@ == b@),
{
    if a.len() != b.len() {
        return false;
    }
    let mut i: usize = 0;
    while i < a.len()
        invariant
            i <= a@.len(),
            a@.len() == b@.len(),
            forall|j: int| 0 <= j < i ==> a@[j] == b@[j],
        decreases a@.len() - i,
    {
        if a[i] != b[i] {
            return false;
        }
        i = i + 1;
    }
    proof {
        assert(a@ =~= b@);
    }
    true
}

/// Strict lexicographic comparison of two byte strings.
pub fn bytes_lt(a: &Vec<u8>, b: &Vec<u8>) -> (r: bool)
    ensures
        r == lex_lt(a@, b@),
{
    let mut i: usize = 0;
    proof {
        assert(a@.skip(0) =~= a@);
        assert(b@.skip(0) =~= b@);
    }
    while i < a.len() && i < b.len() && a[i] == b[i]
        invariant
            i <= a@.len(),
            i <= b@.len(),
            lex_lt(a@, b@) == lex_lt(a@.skip(i as int), b@.skip(i as int)),
        decreases a@.len() - i,
    {
        proof {
            assert(a@.skip(i as int).drop_first() =~= a@.skip(i + 1));
            assert(b@.skip(i as int).drop_first() =~= b@.skip(i + 1));
        }
        i = i + 1;
    }
    proof {
        assert(a@.skip(i as int).len() == a@.len() - i);
        assert(b@.skip(i as int).len() == b@.len() - i);
    }
    if i < a.len() && i < b.len() {
        a[i] < b[i]
    } else {
        i < b.len()
    }
}

/// Copy of the byte range `s[from..to]`.
pub fn copy_range(s: &Vec<u8>, from: usize, to: usize) -> (r: Vec<u8>)
    requires
        from <= to <= s@.len(),
    ensures
        r@ == s@.subrange(from as int, to as int),
{
    let mut r: Vec<u8> = Vec::new();
    let mut i: usize = from;
    while i < to
        invariant
            from <= i <= to <= s@.len(),
            r@ == s@.subrange(from as int, i as int),
        decreases to - i,
    {
        r.push(s[i]);
        i = i + 1;
    }
    r
}

/// Copy of a whole byte string.
pub fn copy_bytes(s: &Vec<u8>) -> (r: Vec<u8>)
    ensures
        r@ == s@,
{
    let r = copy_range(s, 0, s.len());
    proof {
        assert(s@.subrange(0, s@.len() as int) =~= s@);
    }
    r
}

/// The dispatch-order comparator: does `a` come strictly before `b`?
pub fn entry_before_exec(a: &Entry, b: &Entry) -> (r: bool)
    ensures
        r == entry_before(*a, *b),
{
    if a.timestamp != b.timestamp {
        a.timestamp > b.timestamp
    } else if !bytes_eq(&a.article_title, &b.article_title) {
        bytes_lt(&b.article_title, &a.article_title)
    } else {
        bytes_lt(&b.feed_title, &a.feed_title)
    }
}

} // verus!
