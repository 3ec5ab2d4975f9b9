//! Fetch-side normalization: what one source's fetched document becomes.
//!
//! The wire-format parsing (raw bytes of an RSS/Atom document into items)
//! is an external collaborator, specified only at this boundary: the shell
//! runs it in each source's own thread — so a parser abort degrades that
//! source to an empty contribution — and hands its outcome in as plain
//! values (`RawFeed`). The resolution of titles, commands, links and
//! timestamps onto entries, and the degradation rules, are verified here.
use vstd::prelude::*;
use crate::entry::{Entry, Source, copy_bytes};

verus! {

/// One parsed feed item, reduced to plain values: optional title bytes,
/// optional published/updated epoch seconds, optional first link.
pub struct RawEntry {
    pub title: Option<Vec<u8>>,
    pub published: Option<i64>,
    pub updated: Option<i64>,
    pub link: Option<Vec<u8>>,
}

/// One parsed feed document, reduced to plain values.
pub struct RawFeed {
    pub title: Option<Vec<u8>>,
    pub entries: Vec<RawEntry>,
}

pub ghost struct SpecRawEntry {
    pub title: Option<Seq<u8>>,
    pub published: Option<int>,
    pub updated: Option<int>,
    pub link: Option<Seq<u8>>,
}

pub ghost struct SpecRawFeed {
    pub title: Option<Seq<u8>>,
    pub entries: Seq<SpecRawEntry>,
}

impl View for RawEntry {
    type V = SpecRawEntry;

    open spec fn view(&self) -> SpecRawEntry {
        SpecRawEntry {
            title: match self.title {
                Some(t) => Some(t@),
                None => None,
            },
            published: match self.published {
                Some(t) => Some(t as int),
                None => None,
            },
            updated: match self.updated {
                Some(t) => Some(t as int),
                None => None,
            },
            link: match self.link {
                Some(l) => Some(l@),
                None => None,
            },
        }
    }
}

impl View for RawFeed {
    type V = SpecRawFeed;

    open spec fn view(&self) -> SpecRawFeed {
        SpecRawFeed {
            title: match self.title {
                Some(t) => Some(t@),
                None => None,
            },
            entries: self.entries@.map_values(|e: RawEntry| e@),
        }
    }
}

/// The fixed substitute link for an item that carries none, so the identity
/// key is never empty: `http://example.com`.
pub open spec fn placeholder_link() -> Seq<u8> {
    seq![104u8, 116, 116, 112, 58, 47, 47, 101, 120, 97, 109, 112, 108, 101, 46, 99, 111, 109]
}

pub fn placeholder_link_exec() -> (r: Vec<u8>)
    ensures
        r@ == placeholder_link(),
{
    let r: Vec<u8> = vec![
        104u8, 116, 116, 112, 58, 47, 47, 101, 120, 97, 109, 112, 108, 101, 46, 99, 111, 109,
    ];
    proof {
        assert(r@ =~= placeholder_link());
    }
    r
}

/// The resolved display name of the feed: the configured override unless it
/// is empty, else the feed's own title, else empty.
pub open spec fn spec_resolved_title(feed_title: Option<Seq<u8>>, override_title: Seq<u8>) -> Seq<
    u8,
> {
    if override_title.len() > 0 {
        override_title
    } else {
        match feed_title {
            Some(t) => t,
            None => Seq::empty(),
        }
    }
}

/// The resolved open command: the configured override unless it is empty,
/// else the platform fallback.
pub open spec fn spec_resolved_command(override_command: Seq<u8>, fallback: Seq<u8>) -> Seq<u8> {
    if override_command.len() > 0 {
        override_command
    } else {
        fallback
    }
}

/// The resolved timestamp: published time, else updated time, else the
/// fixed sentinel 0.
pub open spec fn spec_entry_timestamp(re: SpecRawEntry) -> int {
    match re.published {
        Some(t) => t,
        None => match re.updated {
            Some(t) => t,
            None => 0,
        },
    }
}

/// The resolved link: the item's first link, else the placeholder.
pub open spec fn spec_entry_link(re: SpecRawEntry) -> Seq<u8> {
    match re.link {
        Some(l) => l,
        None => placeholder_link(),
    }
}

/// Does some item of the feed carry no title at all?
pub open spec fn spec_untitled(f: SpecRawFeed) -> bool {
    exists|i: int| 0 <= i < f.entries.len() && f.entries[i].title is None
}

/// One normalized entry against its raw item and the resolved feed fields.
pub open spec fn entry_matches(e: Entry, re: SpecRawEntry, title: Seq<u8>, command: Seq<u8>) -> bool {
    &&& e.acknowledged == false
    &&& e.feed_title@ == title
    &&& e.open_command@ == command
    &&& (re.title matches Some(t) && e.article_title@ == t)
    &&& e.timestamp as int == spec_entry_timestamp(re)
    &&& e.link@ == spec_entry_link(re)
}

/// What normalizing a parsed feed yields: one entry per item in order, or
/// nothing at all when some item is untitled (such a source degrades to
/// an empty contribution, exactly as a source that does not parse).
pub open spec fn normalized_entries(
    out: Seq<Entry>,
    f: SpecRawFeed,
    override_title: Seq<u8>,
    override_command: Seq<u8>,
    fallback: Seq<u8>,
) -> bool {
    if spec_untitled(f) {
        out.len() == 0
    } else {
        out.len() == f.entries.len() && forall|i: int|
            0 <= i < out.len() ==> entry_matches(
                #[trigger] out[i],
                f.entries[i],
                spec_resolved_title(f.title, override_title),
                spec_resolved_command(override_command, fallback),
            )
    }
}

/// Normalize a parsed feed against its source descriptor.
pub fn normalize_feed(feed: &RawFeed, source: &Source, fallback_command: &Vec<u8>) -> (out: Vec<
    Entry,
>)
    ensures
        normalized_entries(
            out@,
            feed@,
            source.title_override@,
            source.open_command@,
            fallback_command@,
        ),
{
    let title: Vec<u8> = if source.title_override.len() > 0 {
        copy_bytes(&source.title_override)
    } else {
        match &feed.title {
            Some(t) => copy_bytes(t),
            None => Vec::new(),
        }
    };
    let command: Vec<u8> = if source.open_command.len() > 0 {
        copy_bytes(&source.open_command)
    } else {
        copy_bytes(fallback_command)
    };
    proof {
        assert(title@ == spec_resolved_title(feed@.title, source.title_override@));
        assert(command@ == spec_resolved_command(source.open_command@, fallback_command@));
    }
    let mut out: Vec<Entry> = Vec::new();
    let mut i: usize = 0;
    while i < feed.entries.len()
        invariant
            i <= feed.entries@.len(),
            feed@.entries.len() == feed.entries@.len(),
            title@ == spec_resolved_title(feed@.title, source.title_override@),
            command@ == spec_resolved_command(source.open_command@, fallback_command@),
            out@.len() == i,
            forall|j: int| 0 <= j < i ==> feed@.entries[j].title is Some,
            forall|j: int|
                0 <= j < i ==> entry_matches(#[trigger] out@[j], feed@.entries[j], title@, command@),
        decreases feed.entries@.len() - i,
    {
        proof {
            assert(feed@.entries[i as int] == feed.entries@[i as int]@);
        }
        let re = &feed.entries[i];
        match &re.title {
            None => {
                proof {
                    assert(feed@.entries[i as int].title is None);
                    assert(spec_untitled(feed@));
                }
                return Vec::new();
            },
            Some(t) => {
                let ts: i64 = match &re.published {
                    Some(p) => *p,
                    None => match &re.updated {
                        Some(u) => *u,
                        None => 0,
                    },
                };
                let link: Vec<u8> = match &re.link {
                    Some(l) => copy_bytes(l),
                    None => placeholder_link_exec(),
                };
                let e = Entry {
                    acknowledged: false,
                    timestamp: ts,
                    feed_title: copy_bytes(&title),
                    open_command: copy_bytes(&command),
                    article_title: copy_bytes(t),
                    link,
                };
                out.push(e);
            },
        }
        i = i + 1;
    }
    proof {
        assert(!spec_untitled(feed@));
    }
    out
}

/// The verified half of one source's fetch task, taking whatever the
/// wire-format collaborator produced: a document that did not parse as a
/// feed (`None`) contributes nothing, and a parsed feed is normalized —
/// with nothing else in the cycle affected either way.
pub fn entries_from_parse(parsed: Option<RawFeed>, source: &Source, fallback_command: &Vec<
    u8,
>) -> (out: Vec<Entry>)
    ensures
        parsed is None ==> out@.len() == 0,
        parsed matches Some(f) ==> normalized_entries(
            out@,
            f@,
            source.title_override@,
            source.open_command@,
            fallback_command@,
        ),
{
    match parsed {
        None => Vec::new(),
        Some(feed) => normalize_feed(&feed, source, fallback_command),
    }
}

} // verus!
