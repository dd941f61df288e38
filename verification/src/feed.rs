use vstd::prelude::*;

use crate::db::{insert_all, mark_read, Store};
use crate::db::{insert_new_entries, mark_entry_as_read};

verus! {

/// What a fetched document says about one of its items: title, body text
/// and declared identifier, each optional, as character sequences.
pub type ItemView = (Option<Seq<char>>, Option<Seq<char>>, Option<Seq<char>>);

/// One configured feed source: a display name, the human-facing site URL,
/// and the machine-readable feed URL.
#[derive(Debug)]
pub struct Feed {
    pub title: String,
    pub html_url: String,
    pub xml_url: String,
}

impl Clone for Feed {
    fn clone(&self) -> (r: Self)
        ensures
            r == *self,
    {
        Feed { title: self.title.clone(), html_url: self.html_url.clone(), xml_url: self.xml_url.clone() }
    }
}

/// One syndicated item normalized into this crate's storage shape. The
/// `guid` is the sole deduplication key in the store.
#[derive(Debug)]
pub struct Entry {
    pub html_url: String,
    pub title: String,
    pub content: String,
    pub feed: String,
    pub guid: String,
}

impl Clone for Entry {
    fn clone(&self) -> (r: Self)
        ensures
            r == *self,
    {
        Entry {
            html_url: self.html_url.clone(),
            title: self.title.clone(),
            content: self.content.clone(),
            feed: self.feed.clone(),
            guid: self.guid.clone(),
        }
    }
}

impl PartialEq for Entry {
    fn eq(&self, o: &Entry) -> (r: bool) {
        self.html_url == o.html_url && self.title == o.title && self.content == o.content
            && self.feed == o.feed && self.guid == o.guid
    }
}

impl vstd::std_specs::cmp::PartialEqSpecImpl for Entry {
    open spec fn obeys_eq_spec() -> bool {
        true
    }

    open spec fn eq_spec(&self, o: &Entry) -> bool {
        self.html_url@ == o.html_url@ && self.title@ == o.title@ && self.content@ == o.content@
            && self.feed@ == o.feed@ && self.guid@ == o.guid@
    }
}

/// One item of a fetched feed document, reduced to the fields this core
/// reads: title, body text and declared identifier, each optional.
#[derive(Debug)]
pub struct FeedItem {
    pub title: Option<String>,
    pub content: Option<String>,
    pub guid: Option<String>,
}

impl View for FeedItem {
    type V = ItemView;

    open spec fn view(&self) -> ItemView {
        (
            match self.title {
                Some(t) => Some(t@),
                None => None,
            },
            match self.content {
                Some(c) => Some(c@),
                None => None,
            },
            match self.guid {
                Some(g) => Some(g@),
                None => None,
            },
        )
    }
}

/// A successfully parsed feed document: its items, in document order.
#[derive(Debug)]
pub struct ChannelData {
    pub items: Vec<FeedItem>,
}

impl View for ChannelData {
    type V = Seq<ItemView>;

    open spec fn view(&self) -> Seq<ItemView> {
        self.items@.map_values(|it: FeedItem| it@)
    }
}

/// Whether the feed parser accepts this document text.
pub uninterp spec fn feed_parses(text: Seq<char>) -> bool;

/// The items the feed parser reads out of this document text.
pub uninterp spec fn feed_items_of(text: Seq<char>) -> Seq<ItemView>;

/// Relies on rss::Channel::read_from to parse a feed document from its
/// text, and on the accessors Item::title, Item::content, Item::guid and
/// Guid::value to read each parsed item's fields. The parse is a pure
/// function of the text, named by `feed_parses` and `feed_items_of`.
#[verifier::external_body]
fn parse_channel(text: &str) -> (r: Option<ChannelData>)
    ensures
        r is Some <==> feed_parses(text@),
        r matches Some(d) ==> d@ == feed_items_of(text@),
{
    match ::rss::Channel::read_from(text.as_bytes()) {
        Ok(c) => Some(ChannelData {
            items: c
                .items()
                .iter()
                .map(|it| FeedItem {
                    title: it.title().map(str::to_string),
                    content: it.content().map(str::to_string),
                    guid: it.guid().map(|g| g.value().to_string()),
                })
                .collect(),
        }),
        Err(_) => None,
    }
}

/// A lowercase hexadecimal digit.
pub open spec fn is_hex_digit(c: char) -> bool {
    ('0' <= c && c <= '9') || ('a' <= c && c <= 'f')
}

/// The shape of a synthesized identifier: 36 characters, lowercase
/// hexadecimal with hyphens at positions 8, 13, 18 and 23, version nibble
/// 4 and one of the four variant nibbles — a hyphenated version-4 UUID.
pub open spec fn is_synth_guid(s: Seq<char>) -> bool {
    &&& s.len() == 36
    &&& forall|i: int|
        0 <= i < 36 ==> (if i == 8 || i == 13 || i == 18 || i == 23 {
            s[i] == '-'
        } else {
            is_hex_digit(#[trigger] s[i])
        })
    &&& s[14] == '4'
    &&& (s[19] == '8' || s[19] == '9' || s[19] == 'a' || s[19] == 'b')
}

/// Relies on uuid::Uuid::new_v4 and its display form: a fresh random
/// version-4 UUID rendered as 36 lowercase hyphenated hexadecimal
/// characters. Nothing is assumed about which value comes back, only its
/// shape, since the draw is random.
#[verifier::external_body]
fn synthesize_guid() -> (r: String)
    ensures
        is_synth_guid(r@),
{
    format!("{}", ::uuid::Uuid::new_v4())
}

/// Why one source's fetch produced no document. Each source fails on its
/// own; a failure never aborts the batch.
#[derive(Debug, Clone, Copy, PartialEq, Eq, Structural)]
pub enum FetchError {
    /// The request could not be sent or completed.
    Connection,
    /// The server answered with this non-success status code.
    Status(u16),
    /// The response body could not be read.
    Body,
    /// The body was read but is not a well-formed feed document.
    Malformed,
}

/// How one per-source fetch result must relate to the source and the body
/// the transport handed back: a transport failure is kept as is, a body
/// that parses yields the document paired with its source, and a body that
/// does not parse is a malformed-document failure.
pub open spec fn fetch_result_matches(
    r: Result<(Feed, ChannelData), FetchError>,
    f: Feed,
    b: Result<String, FetchError>,
) -> bool {
    match b {
        Ok(t) => {
            if feed_parses(t@) {
                r matches Ok(p) && p.0 == f && p.1@ == feed_items_of(t@)
            } else {
                r == Err::<(Feed, ChannelData), FetchError>(FetchError::Malformed)
            }
        },
        Err(e) => r == Err::<(Feed, ChannelData), FetchError>(e),
    }
}

/// Pair each source with the outcome of parsing its fetched body: one
/// result per source, order kept, same length as the input. No failure is
/// raised to the caller; each is recorded in its slot.
pub fn load_feeds(feeds: &Vec<Feed>, bodies: &Vec<Result<String, FetchError>>) -> (r: Vec<
    Result<(Feed, ChannelData), FetchError>,
>)
    requires
        feeds@.len() == bodies@.len(),
    ensures
        r@.len() == feeds@.len(),
        forall|i: int| 0 <= i < r@.len() ==> fetch_result_matches(r@[i], feeds@[i], bodies@[i]),
{
    let n = feeds.len();
    let mut out: Vec<Result<(Feed, ChannelData), FetchError>> = Vec::new();
    let mut i: usize = 0;
    while i < n
        invariant
            n == feeds@.len(),
            n == bodies@.len(),
            i <= n,
            out@.len() == i,
            forall|k: int| 0 <= k < i ==> fetch_result_matches(out@[k], feeds@[k], bodies@[k]),
        decreases n - i,
    {
        match &bodies[i] {
            Ok(text) => {
                match parse_channel(text.as_str()) {
                    Some(d) => out.push(Ok((feeds[i].clone(), d))),
                    None => out.push(Err(FetchError::Malformed)),
                }
            },
            Err(e) => out.push(Err(*e)),
        }
        i += 1;
    }
    out
}

/// The documents of the successful results, in order, failures dropped.
pub open spec fn successes(rs: Seq<Result<(Feed, ChannelData), FetchError>>) -> Seq<
    (Feed, ChannelData),
>
    decreases rs.len(),
{
    if rs.len() == 0 {
        Seq::<(Feed, ChannelData)>::empty()
    } else {
        successes(rs.drop_last()) + (match rs.last() {
            Ok(p) => seq![p],
            Err(_) => Seq::<(Feed, ChannelData)>::empty(),
        })
    }
}

/// Each source paired with its document's item views.
pub open spec fn doc_views(fc: Seq<(Feed, ChannelData)>) -> Seq<(Feed, Seq<ItemView>)> {
    fc.map_values(|p: (Feed, ChannelData)| (p.0, p.1@))
}

/// All items of all documents, flattened in order, each paired with its
/// owning source.
pub open spec fn flat_views(pairs: Seq<(Feed, Seq<ItemView>)>) -> Seq<(Feed, ItemView)>
    decreases pairs.len(),
{
    if pairs.len() == 0 {
        Seq::<(Feed, ItemView)>::empty()
    } else {
        flat_views(pairs.drop_last()) + pairs.last().1.map_values(
            |it: ItemView| (pairs.last().0, it),
        )
    }
}

/// The item views that the parser would read out of each body that
/// parses, paired with their sources, failures dropped: the spec-level
/// picture of fetching and parsing a batch.
pub open spec fn fetched_views(feeds: Seq<Feed>, bodies: Seq<Result<String, FetchError>>) -> Seq<
    (Feed, Seq<ItemView>),
>
    decreases feeds.len(),
{
    if feeds.len() == 0 || bodies.len() == 0 {
        Seq::<(Feed, Seq<ItemView>)>::empty()
    } else {
        fetched_views(feeds.drop_last(), bodies.drop_last()) + (match bodies.last() {
            Ok(t) => {
                if feed_parses(t@) {
                    seq![(feeds.last(), feed_items_of(t@))]
                } else {
                    Seq::<(Feed, Seq<ItemView>)>::empty()
                }
            },
            Err(_) => Seq::<(Feed, Seq<ItemView>)>::empty(),
        })
    }
}

/// How one extracted entry must relate to the item it came from and that
/// item's owning source: title and content come from the item or fall back
/// to the placeholder strings, the click-through link and the feed label
/// come from the source, and the guid is the item's declared one or, where
/// none was declared, a freshly synthesized identifier.
pub open spec fn entry_matches(e: Entry, src: (Feed, ItemView)) -> bool {
    let f = src.0;
    let it = src.1;
    &&& e.html_url@ == f.html_url@
    &&& e.feed@ == f.title@
    &&& e.title@ == (match it.0 {
        Some(t) => t,
        None => "<no title>"@,
    })
    &&& e.content@ == (match it.1 {
        Some(c) => c,
        None => "<no content>"@,
    })
    &&& (match it.2 {
        Some(g) => e.guid@ == g,
        None => is_synth_guid(e.guid@),
    })
}

/// Turn each document's items into entries, in reverse of the flattened
/// document order, so the most recently fetched sources' items come first.
/// Every entry keeps its item's title and content (placeholders where
/// absent), carries its source's link and label, and gets the item's
/// declared guid or a synthesized one.
pub fn load_entries(feeds_and_channels: Vec<(Feed, ChannelData)>) -> (r: Vec<Entry>)
    ensures
        r@.len() == flat_views(doc_views(feeds_and_channels@)).len(),
        forall|k: int|
            0 <= k < r@.len() ==> entry_matches(
                r@[k],
                flat_views(doc_views(feeds_and_channels@))[r@.len() - 1 - k],
            ),
{
    let fc = feeds_and_channels;
    let n = fc.len();
    let mut fwd: Vec<Entry> = Vec::new();
    let mut i: usize = 0;
    while i < n
        invariant
            n == fc@.len(),
            i <= n,
            fwd@.len() == flat_views(doc_views(fc@.take(i as int))).len(),
            forall|k: int|
                0 <= k < fwd@.len() ==> entry_matches(
                    fwd@[k],
                    flat_views(doc_views(fc@.take(i as int)))[k],
                ),
        decreases n - i,
    {
        let ghost before = flat_views(doc_views(fc@.take(i as int)));
        let pair = &fc[i];
        let m = pair.1.items.len();
        let mut j: usize = 0;
        while j < m
            invariant
                n == fc@.len(),
                i < n,
                m == fc@[i as int].1.items@.len(),
                j <= m,
                pair == &fc@[i as int],
                before == flat_views(doc_views(fc@.take(i as int))),
                fwd@.len() == before.len() + j,
                forall|k: int| 0 <= k < before.len() ==> entry_matches(fwd@[k], before[k]),
                forall|jj: int|
                    0 <= jj < j ==> entry_matches(
                        fwd@[before.len() + jj],
                        (fc@[i as int].0, fc@[i as int].1@[jj]),
                    ),
            decreases m - j,
        {
            let item = &pair.1.items[j];
            let title = match &item.title {
                Some(t) => t.clone(),
                None => "<no title>".to_owned(),
            };
            let content = match &item.content {
                Some(c) => c.clone(),
                None => "<no content>".to_owned(),
            };
            let guid = match &item.guid {
                Some(g) => g.clone(),
                None => synthesize_guid(),
            };
            let e = Entry {
                html_url: pair.0.html_url.clone(),
                title,
                content,
                feed: pair.0.title.clone(),
                guid,
            };
            proof {
                assert(fc@[i as int].1@[j as int] == fc@[i as int].1.items@[j as int]@);
                assert(entry_matches(e, (fc@[i as int].0, fc@[i as int].1@[j as int])));
            }
            fwd.push(e);
            j += 1;
        }
        proof {
            let dv_next = doc_views(fc@.take(i + 1));
            let dv_here = doc_views(fc@.take(i as int));
            assert(fc@.take(i + 1).drop_last() =~= fc@.take(i as int));
            assert(dv_next.drop_last() =~= dv_here);
            assert(dv_next.last() == (fc@[i as int].0, fc@[i as int].1@));
            let tail = fc@[i as int].1@.map_values(|it: ItemView| (fc@[i as int].0, it));
            assert(flat_views(dv_next) == flat_views(dv_here) + tail);
            assert forall|k: int| 0 <= k < fwd@.len() implies entry_matches(
                fwd@[k],
                flat_views(dv_next)[k],
            ) by {
                if k < before.len() {
                    assert(flat_views(dv_next)[k] == before[k]);
                } else {
                    assert(flat_views(dv_next)[k] == tail[k - before.len()]);
                    assert(tail[k - before.len()] == (
                        fc@[i as int].0,
                        fc@[i as int].1@[k - before.len()],
                    ));
                }
            }
        }
        i += 1;
    }
    proof {
        assert(fc@.take(n as int) =~= fc@);
    }
    let ghost fwd_final = fwd@;
    let mut res: Vec<Entry> = Vec::new();
    while fwd.len() > 0
        invariant
            res@.len() + fwd@.len() == fwd_final.len(),
            fwd@ == fwd_final.take(fwd@.len() as int),
            forall|k: int|
                0 <= k < res@.len() ==> res@[k] == fwd_final[fwd_final.len() - 1 - k],
        decreases fwd.len(),
    {
        proof {
            assert(fwd_final.take(fwd@.len() as int).drop_last() =~= fwd_final.take(
                fwd@.len() - 1,
            ));
        }
        let e = fwd.pop().unwrap();
        res.push(e);
    }
    res
}

/// The per-source results, once their bodies are fixed, determine the
/// spec-level picture: dropping the failures and taking the documents'
/// views is the same as reading the views straight off the bodies.
proof fn lemma_successes_views(
    feeds: Seq<Feed>,
    bodies: Seq<Result<String, FetchError>>,
    rs: Seq<Result<(Feed, ChannelData), FetchError>>,
)
    requires
        rs.len() == feeds.len(),
        bodies.len() == feeds.len(),
        forall|i: int| 0 <= i < rs.len() ==> fetch_result_matches(rs[i], feeds[i], bodies[i]),
    ensures
        doc_views(successes(rs)) == fetched_views(feeds, bodies),
    decreases rs.len(),
{
    if rs.len() == 0 {
        assert(doc_views(successes(rs)) =~= fetched_views(feeds, bodies));
    } else {
        let fp = feeds.drop_last();
        let bp = bodies.drop_last();
        let rp = rs.drop_last();
        assert forall|i: int| 0 <= i < rp.len() implies fetch_result_matches(
            rp[i],
            fp[i],
            bp[i],
        ) by {
            assert(rp[i] == rs[i]);
            assert(fp[i] == feeds[i]);
            assert(bp[i] == bodies[i]);
        }
        lemma_successes_views(fp, bp, rp);
        assert(fetch_result_matches(rs.last(), feeds.last(), bodies.last()));
        match bodies.last() {
            Ok(t) => {
                if feed_parses(t@) {
                    let p = rs.last()->Ok_0;
                    assert(successes(rs) == successes(rp).push(p));
                    assert(doc_views(successes(rs)) =~= doc_views(successes(rp)).push(
                        (p.0, p.1@),
                    ));
                    assert(fetched_views(feeds, bodies) == fetched_views(fp, bp).push(
                        (feeds.last(), feed_items_of(t@)),
                    ));
                } else {
                    assert(successes(rs) =~= successes(rp));
                    assert(fetched_views(feeds, bodies) =~= fetched_views(fp, bp));
                }
            },
            Err(_) => {
                assert(successes(rs) =~= successes(rp));
                assert(fetched_views(feeds, bodies) =~= fetched_views(fp, bp));
            },
        }
    }
}

/// One full synchronization run over already-fetched bodies: parse each
/// source's body, drop the failures, extract entries, and insert them into
/// the store with dedup by guid. Returns how many entries were extracted
/// and attempted — counted before dedup, saturating at the counter's
/// maximum — as the "new articles" notification number.
pub fn retrieve_new_entries(
    feeds: &Vec<Feed>,
    bodies: &Vec<Result<String, FetchError>>,
    store: &mut Store,
) -> (count: u32)
    requires
        old(store).wf(),
        feeds@.len() == bodies@.len(),
    ensures
        final(store).wf(),
        ({
            let fl = flat_views(fetched_views(feeds@, bodies@));
            &&& (fl.len() <= u32::MAX ==> count == fl.len())
            &&& (fl.len() > u32::MAX ==> count == u32::MAX)
            &&& exists|es: Seq<Entry>|
                {
                    &&& es.len() == fl.len()
                    &&& (forall|k: int|
                        0 <= k < es.len() ==> entry_matches(#[trigger] es[k], fl[fl.len() - 1 - k]))
                    &&& final(store)@ == insert_all(old(store)@, es)
                }
        }),
{
    let mut results = load_feeds(feeds, bodies);
    let ghost rs = results@;
    let n = results.len();
    let mut docs: Vec<(Feed, ChannelData)> = Vec::new();
    let mut i: usize = 0;
    while i < n
        invariant
            n == rs.len(),
            i <= n,
            results@ == rs.skip(i as int),
            docs@ == successes(rs.take(i as int)),
        decreases n - i,
    {
        proof {
            assert(rs.skip(i as int)[0] == rs[i as int]);
            assert(rs.skip(i as int).remove(0) =~= rs.skip(i + 1));
            assert(rs.take(i + 1).drop_last() =~= rs.take(i as int));
        }
        let r = results.remove(0);
        match r {
            Ok(p) => {
                docs.push(p);
            },
            Err(_) => {
                proof {
                    assert(docs@ + Seq::<(Feed, ChannelData)>::empty() =~= docs@);
                }
            },
        }
        i += 1;
    }
    proof {
        assert(rs.take(n as int) =~= rs);
        lemma_successes_views(feeds@, bodies@, rs);
    }
    let entries = load_entries(docs);
    let ghost es = entries@;
    let count: u32 = if entries.len() > u32::MAX as usize {
        u32::MAX
    } else {
        entries.len() as u32
    };
    insert_new_entries(store, entries);
    proof {
        let fl = flat_views(fetched_views(feeds@, bodies@));
        assert(es.len() == fl.len());
        assert(final(store)@ == insert_all(old(store)@, es));
    }
    count
}

/// Mark this entry's guid read in the store: it will not be returned by
/// any later unread query. A guid matching no row is a no-op.
pub fn mark_as_read(store: &mut Store, read_entry: &Entry)
    requires
        old(store).wf(),
    ensures
        final(store).wf(),
        final(store)@ == mark_read(old(store)@, read_entry.guid@),
{
    mark_entry_as_read(store, &read_entry.guid);
}

/// The value of the last attribute pair carrying this key, or the empty
/// string where the key never occurs.
pub open spec fn attr_value(attrs: Seq<(String, String)>, key: Seq<char>) -> Seq<char>
    decreases attrs.len(),
{
    if attrs.len() == 0 {
        Seq::<char>::empty()
    } else if attrs.last().0@ == key {
        attrs.last().1@
    } else {
        attr_value(attrs.drop_last(), key)
    }
}

/// Build one feed source from the attribute pairs of an outline element:
/// the `title`, `xmlUrl` and `htmlUrl` attributes fill the fields, the
/// last occurrence of a key wins, and a missing key leaves its field
/// empty. Other attributes are ignored.
pub fn feed_from_outline_attributes(attrs: &Vec<(String, String)>) -> (r: Feed)
    ensures
        r.title@ == attr_value(attrs@, "title"@),
        r.xml_url@ == attr_value(attrs@, "xmlUrl"@),
        r.html_url@ == attr_value(attrs@, "htmlUrl"@),
{
    let key_title: String = "title".to_owned();
    let key_xml: String = "xmlUrl".to_owned();
    let key_html: String = "htmlUrl".to_owned();
    let mut entry = Feed { title: String::new(), html_url: String::new(), xml_url: String::new() };
    let n = attrs.len();
    let mut i: usize = 0;
    while i < n
        invariant
            n == attrs@.len(),
            i <= n,
            key_title@ == "title"@,
            key_xml@ == "xmlUrl"@,
            key_html@ == "htmlUrl"@,
            entry.title@ == attr_value(attrs@.take(i as int), "title"@),
            entry.xml_url@ == attr_value(attrs@.take(i as int), "xmlUrl"@),
            entry.html_url@ == attr_value(attrs@.take(i as int), "htmlUrl"@),
        decreases n - i,
    {
        proof {
            assert(attrs@.take(i + 1).drop_last() =~= attrs@.take(i as int));
            assert(attrs@.take(i + 1).last() == attrs@[i as int]);
        }
        if attrs[i].0 == key_title {
            entry.title = attrs[i].1.clone();
        }
        if attrs[i].0 == key_xml {
            entry.xml_url = attrs[i].1.clone();
        }
        if attrs[i].0 == key_html {
            entry.html_url = attrs[i].1.clone();
        }
        i += 1;
    }
    proof {
        assert(attrs@.take(n as int) =~= attrs@);
    }
    entry
}

/// Fetch isolation: in a batch where one source fails with any error and
/// another source's body parses to a document, the successful documents
/// are exactly the second source's, and every extracted item belongs to
/// it. No failure escapes as an error of the batch.
pub proof fn lemma_fetch_isolation(b: Feed, doc: ChannelData, e: FetchError)
    ensures
        ({
            let rs = seq![
                Err::<(Feed, ChannelData), FetchError>(e),
                Ok::<(Feed, ChannelData), FetchError>((b, doc)),
            ];
            &&& successes(rs) == seq![(b, doc)]
            &&& flat_views(doc_views(successes(rs))) == doc@.map_values(|it: ItemView| (b, it))
        }),
{
    let rs = seq![
        Err::<(Feed, ChannelData), FetchError>(e),
        Ok::<(Feed, ChannelData), FetchError>((b, doc)),
    ];
    let one = seq![(b, doc)];
    let none = seq![Err::<(Feed, ChannelData), FetchError>(e)];
    assert(rs.len() == 2);
    assert(rs.last() == Ok::<(Feed, ChannelData), FetchError>((b, doc)));
    assert(rs.drop_last() =~= none);
    assert(none.last() == Err::<(Feed, ChannelData), FetchError>(e));
    assert(none.drop_last() =~= Seq::<Result<(Feed, ChannelData), FetchError>>::empty());
    assert(successes(none.drop_last()) == Seq::<(Feed, ChannelData)>::empty());
    assert(successes(none) == successes(none.drop_last()) + Seq::<(Feed, ChannelData)>::empty());
    assert(successes(none) =~= Seq::<(Feed, ChannelData)>::empty());
    assert(successes(rs) == successes(none) + seq![(b, doc)]);
    assert(successes(rs) =~= one);
    let dv = doc_views(one);
    assert(one[0] == (b, doc));
    assert(dv.len() == 1);
    assert(dv.last() == (b, doc@));
    assert(dv.drop_last() =~= Seq::<(Feed, Seq<ItemView>)>::empty());
    assert(flat_views(dv) == flat_views(dv.drop_last()) + dv.last().1.map_values(
        |it: ItemView| (dv.last().0, it),
    ));
    let mapped = doc@.map_values(|it: ItemView| (b, it));
    assert forall|k: int| 0 <= k < flat_views(dv).len() implies flat_views(dv)[k]
        == mapped[k] by {
        assert(dv.last().1.map_values(|it: ItemView| (dv.last().0, it))[k] == (
            dv.last().0,
            dv.last().1[k],
        ));
        assert(mapped[k] == (b, doc@[k]));
    }
    assert(flat_views(dv) =~= mapped);
}

/// The provable half of synthesized identity: a synthesized guid is never
/// empty and always carries the version-4 shape. That any two synthesized
/// guids of one run differ is a property of the random draw and is checked
/// by test, not proved.
pub proof fn lemma_synthesized_guid_shape(g: Seq<char>)
    requires
        is_synth_guid(g),
    ensures
        g.len() == 36,
        g.len() > 0,
        g[14] == '4',
{
}

} // verus!
