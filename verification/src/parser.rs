//! From decoded history records to artists, tracks and identifiers to look
//! up.

use vstd::prelude::*;
use crate::normalize::{fix_artist_name, normalized};
use crate::substring::{without_prefix, Substring};
use crate::text::{chars_of, has_prefix, same_text, texts_of};
use crate::timestamp::{parse_year, rfc3339_year};
use crate::Args;

verus! {

/// A normalized artist name.
#[derive(Eq, PartialEq, Hash, Clone, Debug)]
pub struct Artist(pub String);

/// A track title.
#[derive(Eq, PartialEq, Hash, Clone, Debug)]
pub struct Track(pub String);

impl View for Artist {
    type V = Seq<char>;

    open spec fn view(&self) -> Seq<char> {
        self.0@
    }
}

impl View for Track {
    type V = Seq<char>;

    open spec fn view(&self) -> Seq<char> {
        self.0@
    }
}

impl std::ops::Deref for Artist {
    type Target = String;

    fn deref(&self) -> (name: &String)
        ensures
            name@ == self@,
    {
        &self.0
    }
}

impl std::ops::Deref for Track {
    type Target = String;

    fn deref(&self) -> (title: &String)
        ensures
            title@ == self@,
    {
        &self.0
    }
}

/// One display name under a record's title.
#[derive(Clone, Debug, PartialEq, Eq)]
pub struct Subtitle {
    pub name: String,
}

/// One entry of the history export.
#[derive(Clone, Debug, PartialEq, Eq)]
pub struct HistoryRecord {
    /// The category label.
    pub header: String,
    /// A fixed leading marker, then a track title or a link.
    pub title: String,
    /// When the entry was made, as an RFC 3339 timestamp.
    pub time: String,
    /// The display names under the title, if any.
    pub subtitles: Option<Vec<Subtitle>>,
}

/// Why a record cannot be used.
#[derive(Clone, Copy, Debug, PartialEq, Eq, Structural)]
pub enum Fault {
    /// The timestamp is no RFC 3339 timestamp.
    BadTimestamp,
    /// The record names its track but has no subtitle to name the artist.
    NoSubtitle,
}

/// A record that cannot be used, by its position in the export.
#[derive(Clone, Copy, Debug, PartialEq, Eq, Structural)]
pub struct InputError {
    pub index: usize,
    pub fault: Fault,
}

/// What a record in scope holds.
#[derive(Clone, Debug, PartialEq, Eq)]
pub enum Entry {
    /// Artist and track are in the record itself; the artist is still raw.
    Listen { artist: String, track: String },
    /// The record only links to a video, by this identifier.
    Reference { id: String },
}

/// The characters of an [`Entry`].
pub ghost enum EntryView {
    Listen { artist: Seq<char>, track: Seq<char> },
    Reference { id: Seq<char> },
}

impl View for Entry {
    type V = EntryView;

    open spec fn view(&self) -> EntryView {
        match self {
            Entry::Listen { artist, track } => EntryView::Listen { artist: artist@, track: track@ },
            Entry::Reference { id } => EntryView::Reference { id: id@ },
        }
    }
}

/// The category label of the records that count.
pub open spec fn music_category() -> Seq<char> {
    "YouTube Music"@
}

/// What a title's payload begins with when it is a link.
pub open spec fn link_scheme() -> Seq<char> {
    "https://"@
}

/// The length of the marker that every title begins with.
pub const TITLE_MARKER_LEN: usize = 8;

/// The length of what stands before the identifier in a link.
pub const LINK_PREFIX_LEN: usize = 32;

impl HistoryRecord {
    /// Whether the record is of the music category.
    pub open spec fn in_category(&self) -> bool {
        self.header@ == music_category()
    }

    /// The year of the record's timestamp, where it has one.
    pub open spec fn year(&self) -> Option<int> {
        rfc3339_year(self.time@)
    }

    /// The title without its leading marker.
    pub open spec fn payload(&self) -> Seq<char> {
        without_prefix(self.title@, TITLE_MARKER_LEN as nat)
    }

    /// Whether the payload is a link.
    pub open spec fn is_link(&self) -> bool {
        link_scheme().is_prefix_of(self.payload())
    }

    /// The name of the last subtitle, where there is one.
    pub open spec fn last_subtitle(&self) -> Option<Seq<char>> {
        match self.subtitles {
            Some(list) => if list@.len() > 0 {
                Some(list@.last().name@)
            } else {
                None
            },
            None => None,
        }
    }
}

/// Whether a record of the music category is kept for `year`, when `read` is
/// the year that its timestamp gave, or `None` where it gave none.
pub open spec fn kept_for(read: Option<int>, year: u64) -> Result<bool, Fault> {
    match read {
        Some(y) => Ok(y == year),
        None => Err(Fault::BadTimestamp),
    }
}

/// Whether the filter keeps `record` for `year`, or why it cannot tell.
pub open spec fn selection(record: HistoryRecord, year: u64) -> Result<bool, Fault> {
    if !record.in_category() {
        Ok(false)
    } else {
        kept_for(record.year(), year)
    }
}

/// Decides on a record of the music category from what its timestamp gave:
/// the record is kept where the year read is `year`, dropped where it is
/// another, and unusable where none was read.
pub fn keep_for_year(read: Option<i32>, year: u64) -> (kept: Result<bool, Fault>)
    ensures
        kept == kept_for(
            match read {
                Some(y) => Some(y as int),
                None => None,
            },
            year,
        ),
{
    match read {
        Some(y) => Ok(y >= 0 && y as u64 == year),
        None => Err(Fault::BadTimestamp),
    }
}

/// The record filter: keeps a record of the music category whose timestamp
/// lies in `year`. A record of another category is dropped without a look at
/// its timestamp; one of the music category whose timestamp does not parse is
/// a fault.
pub fn select(record: &HistoryRecord, year: u64) -> (kept: Result<bool, Fault>)
    ensures
        kept == selection(*record, year),
        !record.in_category() ==> kept == Ok::<bool, Fault>(false),
        record.year() matches Some(y) && y != year ==> kept == Ok::<bool, Fault>(false),
{
    if !same_text(record.header.as_str(), "YouTube Music") {
        return Ok(false);
    }
    let read = match parse_year(record.time.as_str()) {
        Ok(y) => Some(y),
        Err(_) => None,
    };
    keep_for_year(read, year)
}

/// What the classifier makes of `record`.
pub open spec fn classified(record: HistoryRecord) -> Result<EntryView, Fault> {
    if record.is_link() {
        Ok(
            EntryView::Reference {
                id: without_prefix(record.payload(), LINK_PREFIX_LEN as nat),
            },
        )
    } else {
        match record.last_subtitle() {
            Some(name) => Ok(EntryView::Listen { artist: name, track: record.payload() }),
            None => Err(Fault::NoSubtitle),
        }
    }
}

/// The entry classifier. A record whose payload is a link is a reference to
/// the identifier that follows the link's fixed prefix. Any other record is a
/// listen: its payload is the track and its last subtitle the raw artist; to
/// have no subtitle is a fault.
pub fn classify(record: &HistoryRecord) -> (entry: Result<Entry, Fault>)
    ensures
        match entry {
            Ok(e) => classified(*record) == Ok::<EntryView, Fault>(e@),
            Err(fault) => classified(*record) == Err::<EntryView, Fault>(fault),
        },
        entry matches Ok(Entry::Reference { .. }) <==> record.is_link(),
{
    let payload: &str = record.title.substring(TITLE_MARKER_LEN);
    let chars = chars_of(payload);
    let scheme = chars_of("https://");
    if has_prefix(&chars, &scheme) {
        let id: &str = payload.substring(LINK_PREFIX_LEN);
        Ok(Entry::Reference { id: id.to_owned() })
    } else {
        match &record.subtitles {
            Some(list) => {
                if list.len() > 0 {
                    let artist = list[list.len() - 1].name.clone();
                    Ok(Entry::Listen { artist, track: payload.to_owned() })
                } else {
                    Err(Fault::NoSubtitle)
                }
            },
            None => Err(Fault::NoSubtitle),
        }
    }
}

/// What one record of the export comes to.
pub ghost enum Outcome {
    /// Out of scope: another category, or another year.
    Skipped,
    /// In scope, with this content.
    Kept(EntryView),
    /// Unusable.
    Faulty(Fault),
}

/// What `record` comes to when the records of `year` are wanted: the filter
/// decides first, then the classifier.
pub open spec fn outcome(record: HistoryRecord, year: u64) -> Outcome {
    match selection(record, year) {
        Err(fault) => Outcome::Faulty(fault),
        Ok(false) => Outcome::Skipped,
        Ok(true) => match classified(record) {
            Ok(entry) => Outcome::Kept(entry),
            Err(fault) => Outcome::Faulty(fault),
        },
    }
}

/// The normalized artist and the track of `record`, where it is a listen in
/// scope.
pub open spec fn listen_of(record: HistoryRecord, year: u64) -> Option<(Seq<char>, Seq<char>)> {
    match outcome(record, year) {
        Outcome::Kept(EntryView::Listen { artist, track }) => Some((normalized(artist), track)),
        _ => None,
    }
}

/// The identifier of `record`, where it is a reference in scope.
pub open spec fn reference_of(record: HistoryRecord, year: u64) -> Option<Seq<char>> {
    match outcome(record, year) {
        Outcome::Kept(EntryView::Reference { id }) => Some(id),
        _ => None,
    }
}

/// Artist and track of every listen in scope, in the order of the export.
pub open spec fn listens(records: Seq<HistoryRecord>, year: u64) -> Seq<(Seq<char>, Seq<char>)> {
    records.filter_map(|record: HistoryRecord| listen_of(record, year))
}

/// The identifier of every reference in scope, in the order of the export.
pub open spec fn references(records: Seq<HistoryRecord>, year: u64) -> Seq<Seq<char>> {
    records.filter_map(|record: HistoryRecord| reference_of(record, year))
}

/// Whether no record of `records` is unusable.
pub open spec fn faultless(records: Seq<HistoryRecord>, year: u64) -> bool {
    forall|i: int| 0 <= i < records.len() ==> !(#[trigger] outcome(records[i], year) is Faulty)
}

/// Whether `error` names the first unusable record of `records`, and why it
/// is unusable.
pub open spec fn is_first_fault(records: Seq<HistoryRecord>, year: u64, error: InputError) -> bool {
    &&& error.index < records.len()
    &&& outcome(records[error.index as int], year) == Outcome::Faulty(error.fault)
    &&& faultless(records.take(error.index as int), year)
}

/// A record of another category, or of the music category and another year,
/// counts for nothing: with it at the end of an export, the same listens and
/// the same references are found as without it, and the export is no less
/// usable.
pub proof fn lemma_record_out_of_scope(records: Seq<HistoryRecord>, record: HistoryRecord, year: u64)
    requires
        !record.in_category() || (record.year() matches Some(y) && y != year),
    ensures
        outcome(record, year) is Skipped,
        listens(records.push(record), year) == listens(records, year),
        references(records.push(record), year) == references(records, year),
        faultless(records.push(record), year) == faultless(records, year),
{
    let longer = records.push(record);
    let listen = |record: HistoryRecord| listen_of(record, year);
    let reference = |record: HistoryRecord| reference_of(record, year);
    assert(longer.take(records.len() as int) =~= records);
    assert(longer.take(longer.len() as int) =~= longer);
    longer.lemma_filter_map_take_succ(listen, records.len() as int);
    longer.lemma_filter_map_take_succ(reference, records.len() as int);
    if faultless(records, year) {
        assert forall|i: int| 0 <= i < longer.len() implies !(#[trigger] outcome(longer[i], year)
            is Faulty) by {
            if i < records.len() {
                assert(longer[i] == records[i]);
            }
        }
    }
    if faultless(longer, year) {
        assert forall|i: int| 0 <= i < records.len() implies !(#[trigger] outcome(
            records[i],
            year,
        ) is Faulty) by {
            assert(longer[i] == records[i]);
        }
    }
}

/// Artists and tracks side by side.
pub open spec fn pairs_of(artists: Seq<Artist>, tracks: Seq<Track>) -> Seq<(Seq<char>, Seq<char>)> {
    Seq::new(artists.len(), |i: int| (artists[i]@, tracks[i]@))
}

/// What the export holds for one year.
#[derive(Clone, Debug, PartialEq, Eq)]
pub struct Parsed {
    /// The artist of each listen, normalized.
    pub artists: Vec<Artist>,
    /// The track of each listen; as long as `artists`.
    pub tracks: Vec<Track>,
    /// The identifiers still to look up.
    pub identifiers: Vec<String>,
}

/// Goes through the export in order. Every record in scope becomes a listen,
/// with its artist normalized, or an identifier to look up. The first
/// unusable record ends the run.
pub fn parse(input: &Vec<HistoryRecord>, conf: &Args) -> (parsed: Result<Parsed, InputError>)
    ensures
        match parsed {
            Ok(found) => {
                &&& faultless(input@, conf.year)
                &&& found.artists.len() == found.tracks.len()
                &&& pairs_of(found.artists@, found.tracks@) == listens(input@, conf.year)
                &&& texts_of(found.identifiers@) == references(input@, conf.year)
            },
            Err(error) => is_first_fault(input@, conf.year, error),
        },
{
    let year = conf.year;
    let mut artists: Vec<Artist> = Vec::new();
    let mut tracks: Vec<Track> = Vec::new();
    let mut identifiers: Vec<String> = Vec::new();
    let ghost listen = |record: HistoryRecord| listen_of(record, year);
    let ghost reference = |record: HistoryRecord| reference_of(record, year);
    let mut index: usize = 0;
    while index < input.len()
        invariant
            index <= input.len(),
            year == conf.year,
            listen == |record: HistoryRecord| listen_of(record, year),
            reference == |record: HistoryRecord| reference_of(record, year),
            faultless(input@.take(index as int), year),
            artists.len() == tracks.len(),
            pairs_of(artists@, tracks@) == input@.take(index as int).filter_map(listen),
            texts_of(identifiers@) == input@.take(index as int).filter_map(reference),
        decreases input.len() - index,
    {
        let record = &input[index];
        proof {
            input@.lemma_filter_map_take_succ(listen, index as int);
            input@.lemma_filter_map_take_succ(reference, index as int);
        }
        let ghost pairs = pairs_of(artists@, tracks@);
        let ghost ids = texts_of(identifiers@);
        assert(faultless(input@.take(index + 1), year) <==> !(outcome(input[index as int], year)
            is Faulty)) by {
            let shorter = input@.take(index as int);
            let longer = input@.take(index + 1);
            assert(longer[index as int] == input[index as int]);
            assert forall|i: int| 0 <= i < index implies longer[i] == shorter[i] by {}
            if !(outcome(input[index as int], year) is Faulty) {
                assert forall|i: int| 0 <= i < longer.len() implies !(#[trigger] outcome(
                    longer[i],
                    year,
                ) is Faulty) by {
                    if i < index {
                        assert(!(outcome(shorter[i], year) is Faulty));
                    }
                }
            } else {
                assert(outcome(longer[index as int], year) is Faulty);
            }
        }
        match select(record, year) {
            Err(fault) => {
                return Err(InputError { index, fault });
            },
            Ok(false) => {},
            Ok(true) => match classify(record) {
                Err(fault) => {
                    return Err(InputError { index, fault });
                },
                Ok(Entry::Reference { id }) => {
                    identifiers.push(id);
                    assert(texts_of(identifiers@) =~= ids + seq![id@]);
                },
                Ok(Entry::Listen { artist, track }) => {
                    artists.push(Artist(fix_artist_name(artist)));
                    tracks.push(Track(track));
                    assert(pairs_of(artists@, tracks@) =~= pairs + seq![(normalized(artist@), track@)]);
                },
            },
        }
        index += 1;
    }
    assert(input@.take(input.len() as int) =~= input@);
    Ok(Parsed { artists, tracks, identifiers })
}

/// One answer of the lookup service: the channel that published a video, and
/// the video's title.
#[derive(Clone, Debug, PartialEq, Eq)]
pub struct ResolvedMetadata {
    pub channel_name: String,
    pub title: String,
}

/// Artist and track of each answer: the channel's name normalized, and the
/// title as it came.
pub open spec fn resolved_pairs(items: Seq<ResolvedMetadata>) -> Seq<(Seq<char>, Seq<char>)> {
    items.map_values(|item: ResolvedMetadata| (normalized(item.channel_name@), item.title@))
}

/// Adds the answers to one lookup to the artists and tracks found so far, in
/// the order in which the service gave them.
pub fn absorb(items: &Vec<ResolvedMetadata>, artists: &mut Vec<Artist>, tracks: &mut Vec<Track>)
    requires
        old(artists).len() == old(tracks).len(),
    ensures
        final(artists).len() == final(tracks).len(),
        pairs_of(final(artists)@, final(tracks)@) == pairs_of(old(artists)@, old(tracks)@)
            + resolved_pairs(items@),
{
    let ghost start = pairs_of(artists@, tracks@);
    let mut taken: usize = 0;
    while taken < items.len()
        invariant
            taken <= items.len(),
            artists.len() == tracks.len(),
            pairs_of(artists@, tracks@) == start + resolved_pairs(items@).take(taken as int),
        decreases items.len() - taken,
    {
        let ghost before = pairs_of(artists@, tracks@);
        let item = &items[taken];
        artists.push(Artist(fix_artist_name(item.channel_name.clone())));
        tracks.push(Track(item.title.clone()));
        assert(pairs_of(artists@, tracks@) =~= before + seq![resolved_pairs(items@)[taken as int]]);
        assert(resolved_pairs(items@).take(taken + 1) =~= resolved_pairs(items@).take(taken as int)
            + seq![resolved_pairs(items@)[taken as int]]);
        taken += 1;
    }
    assert(resolved_pairs(items@).take(items.len() as int) =~= resolved_pairs(items@));
}

} // verus!
