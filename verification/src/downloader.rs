//! Podcasts, feed entries, and the bounded listing of episodes.
//!
//! A `Podcast` is a name and a feed URI. Parsing the fetched feed body
//! is delegated to the `feed_rs` crate behind a trusted wrapper; what
//! the parser yields is then bounded to the configured episode count
//! and validated by verified code: an entry missing its title,
//! enclosure URI or publish date — or whose title cannot serve as a
//! filename — fails the whole listing.

use vstd::prelude::*;
use crate::errors::PodError;
use crate::paths::{valid_component, target_path_spec, derive_target_path};

verus! {

/// The mathematical value of a `PodcastEntry`.
pub struct PodcastEntryView {
    pub name: Seq<char>,
    pub title: Seq<char>,
    pub uri: Seq<char>,
    pub date: Seq<char>,
}

/// One episode listed from a feed: its podcast's name, its title, its
/// enclosure URI and its publish date.
pub struct PodcastEntry {
    uri: String,
    date: String,
    title: String,
    name: String,
}

impl View for PodcastEntry {
    type V = PodcastEntryView;

    closed spec fn view(&self) -> PodcastEntryView {
        PodcastEntryView {
            name: self.name@,
            title: self.title@,
            uri: self.uri@,
            date: self.date@,
        }
    }
}

impl PodcastEntry {
    /// Builds an entry from its parts.
    pub fn new(title: String, uri: String, date: String, name: String) -> (r: PodcastEntry)
        ensures
            r@.title == title@,
            r@.uri == uri@,
            r@.date == date@,
            r@.name == name@,
    {
        PodcastEntry { name, title, uri, date }
    }

    /// The podcast's name.
    pub fn name(&self) -> (r: &String)
        ensures
            r@ == self@.name,
    {
        &self.name
    }

    /// The episode's title.
    pub fn title(&self) -> (r: &String)
        ensures
            r@ == self@.title,
    {
        &self.title
    }

    /// The enclosure URI.
    pub fn uri(&self) -> (r: &String)
        ensures
            r@ == self@.uri,
    {
        &self.uri
    }

    /// The publish date.
    pub fn date(&self) -> (r: &String)
        ensures
            r@ == self@.date,
    {
        &self.date
    }

    /// The path this entry downloads to: `root/name/title`, with the
    /// enclosure URI's extension appended when it has one.
    pub fn target_path(&self, root: &str) -> (r: String)
        ensures
            r@ == target_path_spec(root@, self@.name, self@.title, self@.uri),
    {
        derive_target_path(root, self.name.as_str(), self.title.as_str(), self.uri.as_str())
    }
}

/// The mathematical value of a `RawEntry`.
pub struct RawEntryView {
    pub title: Option<Seq<char>>,
    pub enclosure: Option<Seq<char>>,
    pub published: Option<Seq<char>>,
}

/// One feed item as the parser hands it over: each required field may
/// still be missing.
pub struct RawEntry {
    pub title: Option<String>,
    pub enclosure: Option<String>,
    pub published: Option<String>,
}

impl View for RawEntry {
    type V = RawEntryView;

    open spec fn view(&self) -> RawEntryView {
        RawEntryView {
            title: match self.title {
                Some(t) => Some(t@),
                None => None,
            },
            enclosure: match self.enclosure {
                Some(u) => Some(u@),
                None => None,
            },
            published: match self.published {
                Some(d) => Some(d@),
                None => None,
            },
        }
    }
}

/// The views of a sequence of raw entries.
pub open spec fn raw_views(s: Seq<RawEntry>) -> Seq<RawEntryView> {
    s.map_values(|x: RawEntry| x@)
}

/// The views of a sequence of entries.
pub open spec fn entry_views(s: Seq<PodcastEntry>) -> Seq<PodcastEntryView> {
    s.map_values(|x: PodcastEntry| x@)
}

/// A raw entry that can become an episode: all three fields present,
/// and a title that can serve as a filename stem.
pub open spec fn complete_raw(r: RawEntryView) -> bool {
    match (r.title, r.enclosure, r.published) {
        (Some(t), Some(_), Some(_)) => valid_component(t),
        _ => false,
    }
}

/// The entry a complete raw entry becomes, for podcast `name`.
pub open spec fn entry_of_raw(name: Seq<char>, r: RawEntryView) -> PodcastEntryView {
    PodcastEntryView {
        name: name,
        title: match r.title {
            Some(t) => t,
            None => Seq::empty(),
        },
        uri: match r.enclosure {
            Some(u) => u,
            None => Seq::empty(),
        },
        date: match r.published {
            Some(d) => d,
            None => Seq::empty(),
        },
    }
}

/// How many entries a listing takes: the configured limit, or all of
/// them if fewer are available.
pub open spec fn selection_count(raws: Seq<RawEntryView>, limit: nat) -> nat {
    if limit <= raws.len() {
        limit
    } else {
        raws.len()
    }
}

/// The listing succeeds iff every taken raw entry is complete.
pub open spec fn selection_ok(raws: Seq<RawEntryView>, limit: nat) -> bool {
    forall|i: int| 0 <= i < selection_count(raws, limit) ==> complete_raw(raws[i])
}

/// The entries a successful listing yields, in feed order.
pub open spec fn selected_entries(
    name: Seq<char>,
    raws: Seq<RawEntryView>,
    limit: nat,
) -> Seq<PodcastEntryView> {
    Seq::new(selection_count(raws, limit), |i: int| entry_of_raw(name, raws[i]))
}

/// Takes the first `min(limit, available)` raw entries, in order, and
/// builds episodes of podcast `name` from them; fails with `FeedFault`
/// iff one of the taken entries is incomplete.
pub fn select_entries(name: &str, raws: &Vec<RawEntry>, limit: usize) -> (r: Result<
    Vec<PodcastEntry>,
    PodError,
>)
    ensures
        match r {
            Ok(es) => selection_ok(raw_views(raws@), limit as nat) && entry_views(es@)
                == selected_entries(name@, raw_views(raws@), limit as nat),
            Err(e) => e == PodError::FeedFault && !selection_ok(raw_views(raws@), limit as nat),
        },
{
    let k: usize = if limit <= raws.len() {
        limit
    } else {
        raws.len()
    };
    assert(k as nat == selection_count(raw_views(raws@), limit as nat));
    let mut out: Vec<PodcastEntry> = Vec::new();
    let mut i: usize = 0;
    while i < k
        invariant
            i <= k,
            k as nat == selection_count(raw_views(raws@), limit as nat),
            k <= raws.len(),
            out@.len() == i as nat,
            forall|j: int| 0 <= j < i ==> complete_raw(raw_views(raws@)[j]),
            forall|j: int|
                0 <= j < i ==> #[trigger] out@[j]@ == entry_of_raw(name@, raw_views(raws@)[j]),
        decreases k - i,
    {
        let raw = &raws[i];
        assert(raw_views(raws@)[i as int] == raws@[i as int]@);
        match (&raw.title, &raw.enclosure, &raw.published) {
            (Some(t), Some(u), Some(d)) => {
                if !crate::paths::is_valid_component(t.as_str()) {
                    assert(!complete_raw(raw_views(raws@)[i as int]));
                    return Err(PodError::FeedFault);
                }
                let entry = PodcastEntry::new(
                    t.clone(),
                    u.clone(),
                    d.clone(),
                    String::from_str(name),
                );
                assert(entry@ == entry_of_raw(name@, raw_views(raws@)[i as int]));
                out.push(entry);
            },
            _ => {
                assert(!complete_raw(raw_views(raws@)[i as int]));
                return Err(PodError::FeedFault);
            },
        }
        i = i + 1;
    }
    assert(entry_views(out@) =~= selected_entries(name@, raw_views(raws@), limit as nat));
    Ok(out)
}

/// What the feed parser yields for a document: its entries' title,
/// enclosure URI and publish date in document order, or nothing when
/// the document does not parse. The value depends on the bytes alone.
pub uninterp spec fn parsed_feed(body: Seq<u8>) -> Option<Seq<RawEntryView>>;

/// Relies on `feed_rs::parser::parse`: decodes an RSS/Atom/JSON feed
/// document and yields its entries in document order. This wrapper
/// keeps, per entry, the title text, the enclosure URL (the first
/// media content URL, or else the content's `src` link) and the
/// publish date, as plain strings.
#[verifier::external_body]
fn parse_feed(body: &[u8]) -> (r: Result<Vec<RawEntry>, PodError>)
    ensures
        match r {
            Ok(v) => parsed_feed(body@) == Some(raw_views(v@)),
            Err(e) => e == PodError::FeedFault && parsed_feed(body@) is None,
        },
{
    match feed_rs::parser::parse(body) {
        Err(_) => Err(PodError::FeedFault),
        Ok(feed) => Ok(
            feed.entries.into_iter().map(
                |e| RawEntry {
                    title: e.title.map(|t| t.content),
                    enclosure: e.media.iter().find_map(
                        |m| m.content.iter().find_map(|c| c.url.clone()),
                    ).map(String::from).or_else(|| e.content.and_then(|c| c.src).map(|l| l.href)),
                    published: e.published.map(|d| d.to_rfc3339()),
                },
            ).collect(),
        ),
    }
}

/// A podcast source: its name and its feed URI.
pub struct Podcast {
    name: String,
    uri: String,
}

/// The mathematical value of a `Podcast`.
pub struct PodcastView {
    pub name: Seq<char>,
    pub uri: Seq<char>,
}

impl View for Podcast {
    type V = PodcastView;

    closed spec fn view(&self) -> PodcastView {
        PodcastView { name: self.name@, uri: self.uri@ }
    }
}

impl Podcast {
    /// Builds a podcast from its name and feed URI.
    pub fn new(name: String, uri: String) -> (r: Podcast)
        ensures
            r@.name == name@,
            r@.uri == uri@,
    {
        Podcast { name, uri }
    }

    /// The podcast's name.
    pub fn name(&self) -> (r: &String)
        ensures
            r@ == self@.name,
    {
        &self.name
    }

    /// The feed URI.
    pub fn uri(&self) -> (r: &String)
        ensures
            r@ == self@.uri,
    {
        &self.uri
    }

    /// Lists this podcast's episodes from a fetched feed body: parses
    /// the document and takes the first `episodes` entries, failing
    /// with `FeedFault` if the document does not parse or a taken
    /// entry is incomplete.
    pub fn entries(&self, body: &[u8], episodes: usize) -> (r: Result<Vec<PodcastEntry>, PodError>)
        ensures
            match r {
                Ok(es) => match parsed_feed(body@) {
                    Some(raws) => selection_ok(raws, episodes as nat) && entry_views(es@)
                        == selected_entries(self@.name, raws, episodes as nat),
                    None => false,
                },
                Err(e) => e == PodError::FeedFault && match parsed_feed(body@) {
                    Some(raws) => !selection_ok(raws, episodes as nat),
                    None => true,
                },
            },
    {
        match parse_feed(body) {
            Err(e) => Err(e),
            Ok(raws) => self.entries_from_raw(&raws, episodes),
        }
    }

    /// Bounds and validates already-parsed raw entries for this
    /// podcast, as `select_entries` does.
    pub fn entries_from_raw(&self, raws: &Vec<RawEntry>, episodes: usize) -> (r: Result<
        Vec<PodcastEntry>,
        PodError,
    >)
        ensures
            match r {
                Ok(es) => selection_ok(raw_views(raws@), episodes as nat) && entry_views(es@)
                    == selected_entries(self@.name, raw_views(raws@), episodes as nat),
                Err(e) => e == PodError::FeedFault && !selection_ok(
                    raw_views(raws@),
                    episodes as nat,
                ),
            },
    {
        select_entries(self.name.as_str(), raws, episodes)
    }
}

} // verus!
