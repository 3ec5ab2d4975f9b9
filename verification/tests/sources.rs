use bathory18::config::{is_feed_line, parse_source_line};
use bathory18::dispatch::notification_title;
use bathory18::driver::poll_interval;
use bathory18::entry::Source;
use bathory18::feed::{entries_from_parse, normalize_feed, RawEntry, RawFeed};

fn to_raw_feed(f: feed_rs::model::Feed) -> RawFeed {
    RawFeed {
        title: f.title.map(|t| t.content.into_bytes()),
        entries: f
            .entries
            .into_iter()
            .map(|e| RawEntry {
                title: e.title.map(|t| t.content.into_bytes()),
                published: e.published.map(|d| d.timestamp()),
                updated: e.updated.map(|d| d.timestamp()),
                link: e.links.into_iter().next().map(|l| l.href.into_bytes()),
            })
            .collect(),
    }
}

fn source(url: &str, title: &str, command: &str) -> Source {
    Source {
        url: url.as_bytes().to_vec(),
        title_override: title.as_bytes().to_vec(),
        open_command: command.as_bytes().to_vec(),
    }
}

#[test]
fn config_lines_filter_comments_and_blanks() {
    assert!(is_feed_line(&b"http://example.org/feed".to_vec()));
    assert!(is_feed_line(&b"  http://example.org/feed".to_vec()));
    assert!(!is_feed_line(&b"# a comment".to_vec()));
    assert!(!is_feed_line(&b"   # indented comment".to_vec()));
    assert!(!is_feed_line(&b"".to_vec()));
    assert!(!is_feed_line(&b"   \t ".to_vec()));
}

#[test]
fn config_line_splits_into_three_fields() {
    let s = parse_source_line(&b"http://u,My Title,my-opener".to_vec());
    assert_eq!(s.url, b"http://u".to_vec());
    assert_eq!(s.title_override, b"My Title".to_vec());
    assert_eq!(s.open_command, b"my-opener".to_vec());

    let s = parse_source_line(&b"http://u".to_vec());
    assert_eq!(s.url, b"http://u".to_vec());
    assert_eq!(s.title_override, Vec::<u8>::new());
    assert_eq!(s.open_command, Vec::<u8>::new());

    let s = parse_source_line(&b"http://u,T".to_vec());
    assert_eq!(s.title_override, b"T".to_vec());
    assert_eq!(s.open_command, Vec::<u8>::new());

    // The command keeps any further commas.
    let s = parse_source_line(&b"http://u,T,cmd,with,commas".to_vec());
    assert_eq!(s.open_command, b"cmd,with,commas".to_vec());
}

#[test]
fn normalize_resolves_overrides_and_fallbacks() {
    let feed = RawFeed {
        title: Some(b"Feed Title".to_vec()),
        entries: vec![
            RawEntry {
                title: Some(b"Article".to_vec()),
                published: None,
                updated: Some(777),
                link: None,
            },
            RawEntry {
                title: Some(b"Other".to_vec()),
                published: Some(42),
                updated: Some(777),
                link: Some(b"http://x".to_vec()),
            },
        ],
    };
    let fallback = b"xdg-open".to_vec();
    let out = normalize_feed(&feed, &source("u", "", ""), &fallback);
    assert_eq!(out.len(), 2);
    // Feed title used when the override is empty; fallback command applies.
    assert_eq!(out[0].feed_title, b"Feed Title".to_vec());
    assert_eq!(out[0].open_command, b"xdg-open".to_vec());
    // Timestamp falls back published -> updated; a missing link gets the
    // placeholder so the identity key is never empty.
    assert_eq!(out[0].timestamp, 777);
    assert_eq!(out[0].link, b"http://example.com".to_vec());
    assert_eq!(out[1].timestamp, 42);
    assert_eq!(out[1].link, b"http://x".to_vec());
    assert!(!out[0].acknowledged);

    let out = normalize_feed(&feed, &source("u", "Mine", "opener"), &fallback);
    assert_eq!(out[0].feed_title, b"Mine".to_vec());
    assert_eq!(out[0].open_command, b"opener".to_vec());
}

#[test]
fn normalize_sentinel_timestamp_is_zero() {
    let feed = RawFeed {
        title: None,
        entries: vec![RawEntry {
            title: Some(b"A".to_vec()),
            published: None,
            updated: None,
            link: Some(b"l".to_vec()),
        }],
    };
    let out = normalize_feed(&feed, &source("u", "", ""), &b"xdg-open".to_vec());
    assert_eq!(out[0].timestamp, 0);
    // No feed title and no override: the display name is empty.
    assert_eq!(out[0].feed_title, Vec::<u8>::new());
}

#[test]
fn non_feed_document_degrades_to_nothing() {
    // An HTML error page is not a feed: that source contributes zero
    // entries, and other sources in the same cycle are unaffected.
    let html = b"<html><body>404 not found</body></html>".to_vec();
    let parsed = feed_rs::parser::parse(html.as_slice()).ok().map(to_raw_feed);
    assert!(parsed.is_none());
    let out = entries_from_parse(parsed, &source("u", "", ""), &b"xdg-open".to_vec());
    assert_eq!(out.len(), 0);

    let mut atom_text = String::new();
    atom_text.push_str("<?xml version=\"1.0\" encoding=\"utf-8\"?>");
    atom_text.push_str("<feed xmlns=\"http://www.w3.org/2005/Atom\">");
    atom_text.push_str("<title>Good Feed</title><id>f</id>");
    atom_text.push_str("<updated>1970-01-01T00:03:20Z</updated>");
    atom_text.push_str("<entry><title>Y</title><id>e1</id>");
    atom_text.push_str("<published>1970-01-01T00:03:20Z</published>");
    atom_text.push_str("<link href=\"http://example.org/y\"/>");
    atom_text.push_str("</entry></feed>");
    let atom = atom_text.into_bytes();
    let parsed = feed_rs::parser::parse(atom.as_slice()).ok().map(to_raw_feed);
    assert!(parsed.is_some());
    let out = entries_from_parse(parsed, &source("u", "", ""), &b"xdg-open".to_vec());
    assert_eq!(out.len(), 1);
    assert_eq!(out[0].feed_title, b"Good Feed".to_vec());
    assert_eq!(out[0].article_title, b"Y".to_vec());
    assert_eq!(out[0].timestamp, 200);
    assert_eq!(out[0].link, b"http://example.org/y".to_vec());
}

#[test]
fn notification_title_carries_position() {
    let t = notification_title(&b"Feed".to_vec(), 1, 1);
    assert_eq!(t, b"Feed".to_vec());
    let t = notification_title(&b"Feed".to_vec(), 2, 5);
    assert_eq!(t, b"(2/5) Feed".to_vec());
}

#[test]
fn poll_interval_parses_or_defaults() {
    assert_eq!(poll_interval(&None), 60);
    assert_eq!(poll_interval(&Some(b"30".to_vec())), 30);
    assert_eq!(poll_interval(&Some(b"abc".to_vec())), 60);
    assert_eq!(poll_interval(&Some(b"".to_vec())), 60);
    assert_eq!(poll_interval(&Some(b"-5".to_vec())), 60);
    assert_eq!(poll_interval(&Some(b"18446744073709551616".to_vec())), 60);
    assert_eq!(poll_interval(&Some(b"18446744073709551615".to_vec())), 18446744073709551615);
}
