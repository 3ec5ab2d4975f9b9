//! The poll-loop driver's decisions: the one-shot bootstrap transition and
//! the poll interval. The loop itself (fetching, sleeping, presenting) is
//! outside work; what it decides is here.
use vstd::prelude::*;
use crate::textfmt::{spec_parse_u64, parse_u64_range};

verus! {

/// What a cycle does with its aggregated queue.
pub enum CycleAction {
    /// First cycle under the bulk-acknowledge flag: append every pending
    /// entry to the store in one batch, present nothing, skip the sleep.
    BulkMark,
    /// Every other cycle: present the queue in reverse order, committing
    /// each entry as it is shown, then sleep.
    Dispatch,
}

/// Bootstrap happens at most once per process: only the very first cycle,
/// and only under the flag, suppresses notification.
pub fn cycle_action(first_time: bool, bulk_flag: bool) -> (a: CycleAction)
    ensures
        a is BulkMark <==> (first_time && bulk_flag),
        a is Dispatch <==> !(first_time && bulk_flag),
{
    if first_time && bulk_flag {
        CycleAction::BulkMark
    } else {
        CycleAction::Dispatch
    }
}

/// The poll interval in seconds: the numeric override when it parses as a
/// `u64`, else — silently, also when the override is absent — the 60 s
/// default.
pub fn poll_interval(text: &Option<Vec<u8>>) -> (r: u64)
    ensures
        r as int == (match text {
            Some(t) => (match spec_parse_u64(t@) {
                Some(v) => v,
                None => 60,
            }),
            None => 60,
        }),
{
    match text {
        None => 60,
        Some(t) => {
            proof {
                assert(t@.subrange(0, t@.len() as int) =~= t@);
            }
            match parse_u64_range(t, 0, t.len()) {
                Some(v) => v,
                None => 60,
            }
        },
    }
}

} // verus!
