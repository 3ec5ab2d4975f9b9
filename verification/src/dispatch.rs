//! The notification dispatcher's verified half: the presentation order (the
//! aggregator's order walked in reverse, oldest first) and the content of
//! each notification.
use vstd::prelude::*;
use crate::entry::{Entry, copy_bytes};
use crate::textfmt::{spec_udigits, format_u64};

verus! {

/// What one presented notification carries. The open command and link
/// accompany it so the confirmation action can spawn `open_command link`.
pub struct Notification {
    pub title: Vec<u8>,
    pub body: Vec<u8>,
    pub open_command: Vec<u8>,
    pub link: Vec<u8>,
    pub timestamp: i64,
}

/// The notification title: the feed's display name, prefixed with a
/// `(index/total) ` position indicator when the batch holds more than one
/// entry.
pub open spec fn spec_title(feed_title: Seq<u8>, index: int, total: int) -> Seq<u8> {
    if total == 1 {
        feed_title
    } else {
        seq![40u8] + spec_udigits(index as nat) + seq![47u8] + spec_udigits(total as nat) + seq![
            41u8,
            32u8,
        ] + feed_title
    }
}

pub fn notification_title(feed_title: &Vec<u8>, index: u64, total: u64) -> (r: Vec<u8>)
    ensures
        r@ == spec_title(feed_title@, index as int, total as int),
{
    if total == 1 {
        copy_bytes(feed_title)
    } else {
        let mut out: Vec<u8> = Vec::new();
        out.push(40);
        let mut d1 = format_u64(index);
        out.append(&mut d1);
        out.push(47);
        let mut d2 = format_u64(total);
        out.append(&mut d2);
        out.push(41);
        out.push(32);
        let mut t = copy_bytes(feed_title);
        out.append(&mut t);
        proof {
            assert(out@ =~= spec_title(feed_title@, index as int, total as int));
        }
        out
    }
}

/// The dispatcher consumes the ordered queue in reverse: presentation step
/// `i` (0-based) shows entry `len - 1 - i`, so the oldest is shown first and
/// the most recent last, with position indicator `(i+1)/len`.
pub fn nth_notification(entries: &Vec<Entry>, i: usize) -> (n: Notification)
    requires
        i < entries@.len(),
    ensures
        ({
            let e = entries@[entries@.len() - 1 - i as int];
            &&& n.title@ == spec_title(e.feed_title@, i + 1, entries@.len() as int)
            &&& n.body@ == e.article_title@
            &&& n.open_command@ == e.open_command@
            &&& n.link@ == e.link@
            &&& n.timestamp == e.timestamp
        }),
{
    let idx = entries.len() - 1 - i;
    let e = &entries[idx];
    let title = notification_title(&e.feed_title, (i as u64) + 1, entries.len() as u64);
    Notification {
        title,
        body: copy_bytes(&e.article_title),
        open_command: copy_bytes(&e.open_command),
        link: copy_bytes(&e.link),
        timestamp: e.timestamp,
    }
}

} // verus!
