//! The line-oriented subscription configuration: one feed per non-blank,
//! non-comment line, `url[,title_override[,open_command]]`, with missing
//! trailing fields empty.
use vstd::prelude::*;
use crate::entry::{Source, copy_range, copy_bytes};
use crate::store::{find_byte, lemma_find_byte_at, COMMA};

verus! {

/// ASCII whitespace, as the blank/comment test reads it. The test works on
/// bytes, so only ASCII whitespace is skipped: a line opened by a non-ASCII
/// whitespace character counts as a feed line (and then degrades to an
/// empty fetch), where a Unicode-aware trim would have skipped it.
pub open spec fn is_space(c: u8) -> bool {
    c == 32 || (9 <= c && c <= 13)
}

/// Index of the first non-whitespace byte, or the length when none.
pub open spec fn first_nonspace(s: Seq<u8>) -> nat
    decreases s.len(),
{
    if s.len() == 0 {
        0
    } else if !is_space(s[0]) {
        0
    } else {
        1 + first_nonspace(s.drop_first())
    }
}

pub proof fn lemma_first_nonspace_at(s: Seq<u8>, i: int)
    requires
        0 <= i <= s.len(),
        forall|j: int| 0 <= j < i ==> is_space(s[j]),
        i < s.len() ==> !is_space(s[i]),
    ensures
        first_nonspace(s) == i,
    decreases s.len(),
{
    if s.len() == 0 {
    } else if !is_space(s[0]) {
    } else {
        lemma_first_nonspace_at(s.drop_first(), i - 1);
    }
}

/// A configuration line that names a feed: some non-whitespace remains, and
/// the first non-whitespace byte is not `#`.
pub open spec fn spec_is_feed_line(s: Seq<u8>) -> bool {
    first_nonspace(s) < s.len() && s[first_nonspace(s) as int] != 35
}

/// Should this configuration line be kept as a feed source?
pub fn is_feed_line(line: &Vec<u8>) -> (r: bool)
    ensures
        r == spec_is_feed_line(line@),
{
    let mut i: usize = 0;
    while i < line.len() && (line[i] == 32 || (line[i] >= 9 && line[i] <= 13))
        invariant
            i <= line@.len(),
            forall|j: int| 0 <= j < i ==> is_space(line@[j]),
        decreases line@.len() - i,
    {
        i = i + 1;
    }
    proof {
        lemma_first_nonspace_at(line@, i as int);
    }
    i < line.len() && line[i] != 35
}

/// The three fields of a configuration line: url up to the first comma,
/// title override up to the second, open command the remainder (which may
/// itself hold commas); missing fields are empty.
pub open spec fn spec_source_fields(s: Seq<u8>) -> (Seq<u8>, Seq<u8>, Seq<u8>) {
    let c1 = find_byte(s, COMMA);
    if c1 + 1 <= s.len() {
        let rest = s.skip(c1 + 1 as int);
        let c2 = find_byte(rest, COMMA);
        if c2 + 1 <= rest.len() {
            (s.take(c1 as int), rest.take(c2 as int), rest.skip(c2 + 1 as int))
        } else {
            (s.take(c1 as int), rest, Seq::empty())
        }
    } else {
        (s, Seq::empty(), Seq::empty())
    }
}

/// Split one configuration line into its source descriptor.
pub fn parse_source_line(line: &Vec<u8>) -> (src: Source)
    ensures
        src.url@ == spec_source_fields(line@).0,
        src.title_override@ == spec_source_fields(line@).1,
        src.open_command@ == spec_source_fields(line@).2,
{
    let mut c1: usize = 0;
    while c1 < line.len() && line[c1] != COMMA
        invariant
            c1 <= line@.len(),
            forall|j: int| 0 <= j < c1 ==> line@[j] != COMMA,
        decreases line@.len() - c1,
    {
        c1 = c1 + 1;
    }
    proof {
        lemma_find_byte_at(line@, COMMA, c1 as int);
    }
    if c1 == line.len() {
        let url = copy_bytes(line);
        let empty1: Vec<u8> = Vec::new();
        let empty2: Vec<u8> = Vec::new();
        proof {
            assert(empty1@ =~= Seq::<u8>::empty());
            assert(empty2@ =~= Seq::<u8>::empty());
        }
        return Source { url, title_override: empty1, open_command: empty2 };
    }
    let ghost rest = line@.skip(c1 + 1);
    let mut c2: usize = c1 + 1;
    while c2 < line.len() && line[c2] != COMMA
        invariant
            c1 + 1 <= c2 <= line@.len(),
            forall|j: int| c1 < j < c2 ==> line@[j] != COMMA,
        decreases line@.len() - c2,
    {
        c2 = c2 + 1;
    }
    proof {
        assert forall|j: int| 0 <= j < c2 - c1 - 1 implies rest[j] != COMMA by {
            assert(rest[j] == line@[c1 + 1 + j]);
        }
        if c2 < line.len() {
            assert(rest[c2 - c1 - 1] == COMMA);
        }
        lemma_find_byte_at(rest, COMMA, c2 - c1 - 1);
    }
    let url = copy_range(line, 0, c1);
    proof {
        assert(line@.subrange(0, c1 as int) =~= line@.take(c1 as int));
    }
    if c2 == line.len() {
        let title = copy_range(line, c1 + 1, c2);
        let empty: Vec<u8> = Vec::new();
        proof {
            assert(line@.subrange(c1 + 1, c2 as int) =~= rest);
            assert(empty@ =~= Seq::<u8>::empty());
        }
        Source { url, title_override: title, open_command: empty }
    } else {
        let title = copy_range(line, c1 + 1, c2);
        let cmd = copy_range(line, c2 + 1, line.len());
        proof {
            assert(line@.subrange(c1 + 1, c2 as int) =~= rest.take(c2 - c1 - 1));
            assert(line@.subrange(c2 + 1, line@.len() as int) =~= rest.skip(c2 - c1 - 1 + 1));
        }
        Source { url, title_override: title, open_command: cmd }
    }
}

} // verus!
