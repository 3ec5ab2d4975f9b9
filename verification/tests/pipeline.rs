use bathory18::aggregate::{aggregate, remove_read_entries, sort_entries};
use bathory18::dispatch::nth_notification;
use bathory18::driver::cycle_action;
use bathory18::driver::CycleAction;
use bathory18::entry::Entry;
use bathory18::store::{commit_read, mark_all_as_read, parse_store, record_line, store_contains};
use bathory18::store::ReadRecord;

fn entry(timestamp: i64, article_title: &str, link: &str) -> Entry {
    Entry {
        acknowledged: false,
        timestamp,
        feed_title: b"feed".to_vec(),
        open_command: b"xdg-open".to_vec(),
        article_title: article_title.as_bytes().to_vec(),
        link: link.as_bytes().to_vec(),
    }
}

#[test]
fn scenario_two_sources_full_cycle() {
    // Source A yields {T=100,"X",link1}, source B yields {T=200,"Y",link2};
    // the store is empty.
    let mut feeds = vec![entry(100, "X", "link1"), entry(200, "Y", "link2")];
    let mut records: Vec<ReadRecord> = Vec::new();
    aggregate(&mut feeds, &records);
    // Aggregator order is descending timestamp: [Y, X].
    assert_eq!(feeds.len(), 2);
    assert_eq!(feeds[0].article_title, b"Y".to_vec());
    assert_eq!(feeds[1].article_title, b"X".to_vec());
    // The dispatcher reverse-iterates: X is presented first, then Y.
    let first = nth_notification(&feeds, 0);
    let second = nth_notification(&feeds, 1);
    assert_eq!(first.body, b"X".to_vec());
    assert_eq!(second.body, b"Y".to_vec());
    // Presenting commits each entry.
    let mut text: Vec<u8> = Vec::new();
    for i in 0..feeds.len() {
        let n = nth_notification(&feeds, i);
        if let Some(line) = commit_read(&mut records, n.timestamp, &n.link) {
            text.extend_from_slice(&line);
        }
    }
    assert!(store_contains(&records, 100, &b"link1".to_vec()));
    assert!(store_contains(&records, 200, &b"link2".to_vec()));
    assert_eq!(text, b"100,link1\n200,link2\n".to_vec());
    // A repeated cycle with identical feed contents yields an empty queue,
    // also when the store is re-read from its persisted text.
    let reread = parse_store(&text);
    let mut again = vec![entry(100, "X", "link1"), entry(200, "Y", "link2")];
    aggregate(&mut again, &reread);
    assert_eq!(again.len(), 0);
}

#[test]
fn dedup_drops_stored_keys_only() {
    let records = vec![ReadRecord { timestamp: 100, link: b"link1".to_vec() }];
    let mut feeds = vec![entry(100, "X", "link1"), entry(200, "Y", "link2")];
    remove_read_entries(&mut feeds, &records);
    assert_eq!(feeds.len(), 1);
    assert_eq!(feeds[0].article_title, b"Y".to_vec());
}

#[test]
fn dedup_key_is_timestamp_and_link() {
    // Same link, different timestamp: a different read-event.
    let records = vec![ReadRecord { timestamp: 100, link: b"link1".to_vec() }];
    let mut feeds = vec![entry(101, "X", "link1")];
    remove_read_entries(&mut feeds, &records);
    assert_eq!(feeds.len(), 1);
}

#[test]
fn idempotent_mark_appends_once() {
    let mut records: Vec<ReadRecord> = Vec::new();
    let link = b"link1".to_vec();
    let first = commit_read(&mut records, 100, &link);
    assert_eq!(first, Some(b"100,link1\n".to_vec()));
    assert_eq!(records.len(), 1);
    let second = commit_read(&mut records, 100, &link);
    assert_eq!(second, None);
    assert_eq!(records.len(), 1);
    // The committed entry is not re-presented in a later cycle.
    let mut feeds = vec![entry(100, "X", "link1")];
    aggregate(&mut feeds, &records);
    assert_eq!(feeds.len(), 0);
}

#[test]
fn sort_order_is_deterministic_across_input_orders() {
    let a = || entry(100, "A", "l1");
    let b = || entry(100, "B", "l2");
    let c = || entry(300, "C", "l3");
    let mut one = vec![a(), c(), b()];
    let mut two = vec![b(), a(), c()];
    sort_entries(&mut one);
    sort_entries(&mut two);
    let titles = |v: &Vec<Entry>| -> Vec<Vec<u8>> {
        v.iter().map(|e| e.article_title.clone()).collect()
    };
    assert_eq!(titles(&one), titles(&two));
    // Descending timestamp, then descending article title.
    assert_eq!(titles(&one), vec![b"C".to_vec(), b"B".to_vec(), b"A".to_vec()]);
}

#[test]
fn sort_ties_break_on_feed_title() {
    let mut one = vec![
        Entry {
            acknowledged: false,
            timestamp: 5,
            feed_title: b"alpha".to_vec(),
            open_command: b"o".to_vec(),
            article_title: b"same".to_vec(),
            link: b"l1".to_vec(),
        },
        Entry {
            acknowledged: false,
            timestamp: 5,
            feed_title: b"beta".to_vec(),
            open_command: b"o".to_vec(),
            article_title: b"same".to_vec(),
            link: b"l2".to_vec(),
        },
    ];
    sort_entries(&mut one);
    // Feed title descending: beta before alpha.
    assert_eq!(one[0].feed_title, b"beta".to_vec());
    assert_eq!(one[1].feed_title, b"alpha".to_vec());
}

#[test]
fn bootstrap_marks_all_without_notifying() {
    // Flag-enabled first run with 5 pending entries.
    assert!(matches!(cycle_action(true, true), CycleAction::BulkMark));
    assert!(matches!(cycle_action(false, true), CycleAction::Dispatch));
    assert!(matches!(cycle_action(true, false), CycleAction::Dispatch));
    let mut feeds: Vec<Entry> = (0..5)
        .map(|i| entry(i, "t", &format!("l{}", i)))
        .collect();
    let mut records: Vec<ReadRecord> = Vec::new();
    let batch = mark_all_as_read(&mut feeds, &mut records);
    assert_eq!(records.len(), 5);
    assert!(feeds.iter().all(|e| e.acknowledged));
    assert_eq!(batch, b"0,l0\n1,l1\n2,l2\n3,l3\n4,l4\n".to_vec());
    // A second bulk pass appends nothing: everything is acknowledged.
    let batch2 = mark_all_as_read(&mut feeds, &mut records);
    assert_eq!(batch2, Vec::<u8>::new());
    assert_eq!(records.len(), 5);
    // A subsequent cycle with the same 5 entries yields zero to dispatch.
    let mut again: Vec<Entry> = (0..5)
        .map(|i| entry(i, "t", &format!("l{}", i)))
        .collect();
    aggregate(&mut again, &records);
    assert_eq!(again.len(), 0);
    // The same holds when the store is re-read from the persisted batch.
    let reread = parse_store(&batch);
    assert_eq!(reread.len(), 5);
    let mut third: Vec<Entry> = (0..5)
        .map(|i| entry(i, "t", &format!("l{}", i)))
        .collect();
    aggregate(&mut third, &reread);
    assert_eq!(third.len(), 0);
}

#[test]
fn record_line_is_exact() {
    assert_eq!(record_line(100, &b"link1".to_vec()), b"100,link1\n".to_vec());
    assert_eq!(record_line(-3, &b"x".to_vec()), b"-3,x\n".to_vec());
    assert_eq!(record_line(0, &b"".to_vec()), b"0,\n".to_vec());
}

#[test]
fn parse_store_reads_lines_and_skips_malformed() {
    let text = b"100,link1\ngarbage\n200,link2\n".to_vec();
    let records = parse_store(&text);
    assert_eq!(records.len(), 2);
    assert_eq!(records[0].timestamp, 100);
    assert_eq!(records[0].link, b"link1".to_vec());
    assert_eq!(records[1].timestamp, 200);
    assert_eq!(records[1].link, b"link2".to_vec());
    // A missing store is an empty text, hence no records.
    assert_eq!(parse_store(&Vec::new()).len(), 0);
    // A link may itself hold commas; the timestamp ends at the first one.
    let records = parse_store(&b"-5,a,b\n".to_vec());
    assert_eq!(records.len(), 1);
    assert_eq!(records[0].timestamp, -5);
    assert_eq!(records[0].link, b"a,b".to_vec());
    // An out-of-range timestamp does not parse.
    assert_eq!(parse_store(&b"9223372036854775808,x\n".to_vec()).len(), 0);
    assert_eq!(parse_store(&b"9223372036854775807,x\n".to_vec()).len(), 1);
}
