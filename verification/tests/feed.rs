use rsass::db::{get_unread_entries, mark_entry_as_read, Store};
use rsass::feed::{
    feed_from_outline_attributes, load_entries, load_feeds, mark_as_read, retrieve_new_entries,
    ChannelData, Entry, Feed, FeedItem, FetchError,
};

fn feed(title: &str) -> Feed {
    Feed {
        title: title.to_string(),
        html_url: format!("http://{}.example.org", title),
        xml_url: format!("http://{}.example.org/feed.xml", title),
    }
}

fn two_item_xml() -> String {
    String::from(
        "<?xml version=\"1.0\"?>\
         <rss version=\"2.0\"><channel>\
         <title>Chan</title><link>http://example.org</link><description>d</description>\
         <item><title>First</title><guid>g1</guid></item>\
         <item><title>Second</title></item>\
         </channel></rss>",
    )
}

fn is_synthesized_shape(guid: &str) -> bool {
    let chars: Vec<char> = guid.chars().collect();
    if chars.len() != 36 {
        return false;
    }
    for (i, c) in chars.iter().enumerate() {
        if i == 8 || i == 13 || i == 18 || i == 23 {
            if *c != '-' {
                return false;
            }
        } else if !(c.is_ascii_digit() || ('a'..='f').contains(c)) {
            return false;
        }
    }
    chars[14] == '4' && ['8', '9', 'a', 'b'].contains(&chars[19])
}

#[test]
fn test_fetch_isolation() {
    let feeds = vec![feed("a"), feed("b")];
    let bodies = vec![Err(FetchError::Connection), Ok(two_item_xml())];
    let results = load_feeds(&feeds, &bodies);

    assert_eq!(results.len(), 2);
    assert!(matches!(results[0], Err(FetchError::Connection)));
    let (src, doc) = results[1].as_ref().expect("second source must parse");
    assert_eq!(src.title, "b");
    assert_eq!(doc.items.len(), 2);

    let mut store = Store::new();
    let count = retrieve_new_entries(&feeds, &bodies, &mut store);
    assert_eq!(count, 2);
    let unread = get_unread_entries(&store);
    assert_eq!(unread.len(), 2);
    for e in &unread {
        assert_eq!(e.feed, "b");
        assert_eq!(e.html_url, "http://b.example.org");
    }
}

#[test]
fn test_each_fetch_error_kept_per_source() {
    let feeds = vec![feed("a"), feed("b"), feed("c"), feed("d")];
    let bodies = vec![
        Err(FetchError::Connection),
        Err(FetchError::Status(404)),
        Err(FetchError::Body),
        Ok(String::from("this is not a feed document")),
    ];
    let results = load_feeds(&feeds, &bodies);

    assert_eq!(results.len(), 4);
    assert!(matches!(results[0], Err(FetchError::Connection)));
    assert!(matches!(results[1], Err(FetchError::Status(404))));
    assert!(matches!(results[2], Err(FetchError::Body)));
    assert!(matches!(results[3], Err(FetchError::Malformed)));
}

#[test]
fn test_synthesized_identity() {
    let doc = ChannelData {
        items: vec![
            FeedItem { title: None, content: None, guid: None },
            FeedItem { title: None, content: None, guid: None },
        ],
    };
    let entries = load_entries(vec![(feed("a"), doc)]);

    assert_eq!(entries.len(), 2);
    assert!(!entries[0].guid.is_empty());
    assert!(!entries[1].guid.is_empty());
    assert!(is_synthesized_shape(&entries[0].guid));
    assert!(is_synthesized_shape(&entries[1].guid));
    assert_ne!(entries[0].guid, entries[1].guid);
}

#[test]
fn test_extractor_defaults_and_feed_fields() {
    let doc = ChannelData {
        items: vec![FeedItem { title: None, content: None, guid: Some(String::from("g")) }],
    };
    let entries = load_entries(vec![(feed("a"), doc)]);

    assert_eq!(entries.len(), 1);
    let e = &entries[0];
    assert_eq!(e.title, "<no title>");
    assert_eq!(e.content, "<no content>");
    assert_eq!(e.feed, "a");
    assert_eq!(e.html_url, "http://a.example.org");
    assert_eq!(e.guid, "g");
}

#[test]
fn test_extractor_reverses_document_order() {
    let doc = ChannelData {
        items: vec![
            FeedItem {
                title: Some(String::from("First")),
                content: Some(String::from("c1")),
                guid: Some(String::from("g1")),
            },
            FeedItem {
                title: Some(String::from("Second")),
                content: Some(String::from("c2")),
                guid: Some(String::from("g2")),
            },
        ],
    };
    let entries = load_entries(vec![(feed("a"), doc)]);

    assert_eq!(entries.len(), 2);
    assert_eq!(entries[0].title, "Second");
    assert_eq!(entries[1].title, "First");
}

#[test]
fn test_end_to_end_scenario() {
    let feeds = vec![feed("blog")];
    let bodies = vec![Ok(two_item_xml())];
    let mut store = Store::new();

    let count = retrieve_new_entries(&feeds, &bodies, &mut store);
    assert_eq!(count, 2);

    let unread = get_unread_entries(&store);
    assert_eq!(unread.len(), 2);

    mark_entry_as_read(&mut store, &String::from("g1"));
    let after = get_unread_entries(&store);
    assert_eq!(after.len(), 1);
    let survivor = &after[0];
    assert_ne!(survivor.guid, "g1");
    assert!(is_synthesized_shape(&survivor.guid));
    assert_eq!(survivor.title, "Second");
}

#[test]
fn test_sync_twice_adds_nothing_new() {
    let feeds = vec![feed("blog")];
    let bodies = vec![Ok(two_item_xml())];
    let mut store = Store::new();

    retrieve_new_entries(&feeds, &bodies, &mut store);
    let first_unread = get_unread_entries(&store);
    let count = retrieve_new_entries(&feeds, &bodies, &mut store);

    // The count reports entries attempted, before dedup.
    assert_eq!(count, 2);
    let second_unread = get_unread_entries(&store);
    // The declared-guid item is deduplicated; the guid-less item is
    // synthesized anew each run and so is duplicated.
    assert_eq!(first_unread.len(), 2);
    assert_eq!(second_unread.len(), 3);
}

#[test]
fn test_mark_as_read_via_entry() {
    let feeds = vec![feed("blog")];
    let bodies = vec![Ok(two_item_xml())];
    let mut store = Store::new();
    retrieve_new_entries(&feeds, &bodies, &mut store);

    let unread = get_unread_entries(&store);
    let target: &Entry = unread.iter().find(|e| e.guid == "g1").expect("g1 must be stored");
    mark_as_read(&mut store, target);

    let after = get_unread_entries(&store);
    assert_eq!(after.len(), 1);
    assert_ne!(after[0].guid, "g1");
}

#[test]
fn test_outline_attributes_build_feed() {
    let attrs = vec![
        (String::from("type"), String::from("rss")),
        (String::from("title"), String::from("A Blog")),
        (String::from("xmlUrl"), String::from("http://example.org/feed.xml")),
        (String::from("htmlUrl"), String::from("http://example.org")),
    ];
    let f = feed_from_outline_attributes(&attrs);

    assert_eq!(f.title, "A Blog");
    assert_eq!(f.xml_url, "http://example.org/feed.xml");
    assert_eq!(f.html_url, "http://example.org");
}

#[test]
fn test_outline_attributes_last_key_wins_and_missing_is_empty() {
    let attrs = vec![
        (String::from("title"), String::from("Old")),
        (String::from("title"), String::from("New")),
    ];
    let f = feed_from_outline_attributes(&attrs);

    assert_eq!(f.title, "New");
    assert_eq!(f.xml_url, "");
    assert_eq!(f.html_url, "");
}
