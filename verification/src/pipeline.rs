//! The run, step by step.
//!
//! A run reads the export, looks up one batch of identifiers after another
//! and ends with a report or an error. The library decides; its caller does
//! the outside work: it reads and decodes the file, sends each lookup, and
//! hands back what came of it as the next event.

use vstd::prelude::*;
use crate::batch::{batch_identifiers, batch_texts, BATCH_LIMIT};
use crate::parser::{
    absorb, faultless, is_first_fault, listens, pairs_of, parse, references, resolved_pairs, Artist,
    Fault, HistoryRecord, InputError, ResolvedMetadata, Track,
};
use crate::rank::{is_ranking, names_of, occurence_sort, ranking_of, RankedEntry};
use crate::render::{decimal_text, push_decimal};
use crate::text::{text_of, texts_of};
use crate::Args;

verus! {

/// How often a lookup that failed for a passing reason is sent again.
pub const RETRY_LIMIT: u32 = 3;

/// Why the export could not be had.
#[derive(Clone, Copy, Debug, PartialEq, Eq, Structural)]
pub enum ExportFailure {
    /// There is no file at the path given.
    Missing,
    /// The file could not be read.
    Unreadable,
    /// The file does not hold a list of history records.
    Malformed,
}

/// Why a lookup failed.
#[derive(Clone, Copy, Debug, PartialEq, Eq, Structural)]
pub enum LookupFailure {
    /// The network or the service failed for now; the same request may pass
    /// later.
    Retryable,
    /// The service turned the request down, or answered what cannot be read;
    /// the same request would fail again.
    Terminal,
}

/// How the answer to a lookup failed, by its HTTP status: not at all for a
/// status of success; for now where the service is overloaded or broken (429
/// and the statuses from 500 on); for good otherwise.
pub open spec fn status_failure(status: u16) -> Option<LookupFailure> {
    if 200 <= status < 300 {
        None
    } else if status == 429 || 500 <= status < 600 {
        Some(LookupFailure::Retryable)
    } else {
        Some(LookupFailure::Terminal)
    }
}

/// Tells from the HTTP status of an answer whether the lookup failed, and
/// how.
pub fn failure_of_status(status: u16) -> (failure: Option<LookupFailure>)
    ensures
        failure == status_failure(status),
{
    if 200 <= status && status < 300 {
        None
    } else if status == 429 || (500 <= status && status < 600) {
        Some(LookupFailure::Retryable)
    } else {
        Some(LookupFailure::Terminal)
    }
}

/// The pause before a lookup is sent, in milliseconds: none before the first
/// try, then half a second, doubled with each further try up to two seconds.
pub open spec fn pause_millis(attempt: u32) -> u64 {
    if attempt == 0 {
        0
    } else if attempt == 1 {
        500
    } else if attempt == 2 {
        1000
    } else {
        2000
    }
}

/// How long to wait before the lookup that follows `attempt` failed tries.
pub fn backoff_millis(attempt: u32) -> (millis: u64)
    ensures
        millis == pause_millis(attempt),
{
    if attempt == 0 {
        0
    } else if attempt == 1 {
        500
    } else if attempt == 2 {
        1000
    } else {
        2000
    }
}

/// Why a run ended without a report.
#[derive(Clone, Debug, PartialEq, Eq)]
pub enum RunError {
    /// The export could not be had.
    Export(ExportFailure),
    /// A record of the export is unusable.
    Input(InputError),
    /// The lookup of `batch` failed for good.
    Lookup { batch: String, failure: LookupFailure },
    /// An event came that the run was not waiting for.
    OutOfTurn,
}

/// The error in words, for a run on the export at `path`. An error of the
/// export names the path, an unusable record its place in the export, and a
/// failed lookup the identifiers that were asked for.
pub open spec fn error_text(error: RunError, path: Seq<char>) -> Seq<char> {
    match error {
        RunError::Export(ExportFailure::Missing) => "Provided input file '"@ + path
            + "' does not exist."@,
        RunError::Export(ExportFailure::Unreadable) => "Input file '"@ + path
            + "' could not be read."@,
        RunError::Export(ExportFailure::Malformed) => "Input file '"@ + path
            + "' does not hold a list of history records."@,
        RunError::Input(InputError { index, fault: Fault::BadTimestamp }) => "Record "@
            + decimal_text(index as nat) + " of '"@ + path
            + "' has a timestamp that is not RFC 3339."@,
        RunError::Input(InputError { index, fault: Fault::NoSubtitle }) => "Record "@
            + decimal_text(index as nat) + " of '"@ + path
            + "' names a track but no artist."@,
        RunError::Lookup { batch, failure: LookupFailure::Retryable } =>
            "Lookup kept failing for identifiers "@ + batch@ + "."@,
        RunError::Lookup { batch, failure: LookupFailure::Terminal } =>
            "Lookup was refused for identifiers "@ + batch@ + "."@,
        RunError::OutOfTurn => "The run received an event that it was not waiting for."@,
    }
}

impl RunError {
    /// Says the error in words, for a run on the export at `path`.
    pub fn message(&self, path: &str) -> (text: String)
        ensures
            text@ == error_text(*self, path@),
    {
        match self {
            RunError::Export(failure) => {
                let mut text = match failure {
                    ExportFailure::Missing => String::from_str("Provided input file '"),
                    _ => String::from_str("Input file '"),
                };
                text.append(path);
                match failure {
                    ExportFailure::Missing => text.append("' does not exist."),
                    ExportFailure::Unreadable => text.append("' could not be read."),
                    ExportFailure::Malformed => text.append(
                        "' does not hold a list of history records.",
                    ),
                }
                text
            },
            RunError::Input(error) => {
                let mut digits: Vec<char> = Vec::new();
                push_decimal(error.index as u64, &mut digits);
                let number = text_of(&digits);
                let mut text = String::from_str("Record ");
                text.append(number.as_str());
                text.append(" of '");
                text.append(path);
                match error.fault {
                    Fault::BadTimestamp => text.append("' has a timestamp that is not RFC 3339."),
                    Fault::NoSubtitle => text.append("' names a track but no artist."),
                }
                text
            },
            RunError::Lookup { batch, failure } => {
                let mut text = match failure {
                    LookupFailure::Retryable => String::from_str(
                        "Lookup kept failing for identifiers ",
                    ),
                    LookupFailure::Terminal => String::from_str(
                        "Lookup was refused for identifiers ",
                    ),
                };
                text.append(batch.as_str());
                text.append(".");
                text
            },
            RunError::OutOfTurn => String::from_str(
                "The run received an event that it was not waiting for.",
            ),
        }
    }
}

/// What the caller reports after the outside work.
#[derive(Debug)]
pub enum Event {
    /// The export was read and decoded, or could not be.
    Export(Result<Vec<HistoryRecord>, ExportFailure>),
    /// The lookup that was asked for last was answered.
    Resolved(Vec<ResolvedMetadata>),
    /// The lookup that was asked for last failed.
    LookupFailed(LookupFailure),
}

/// The two rankings that a run ends with, each in full.
#[derive(Clone, Debug, PartialEq, Eq)]
pub struct Report {
    pub artists: Vec<RankedEntry<Artist>>,
    pub tracks: Vec<RankedEntry<Track>>,
}

impl Report {
    /// Whether the report ranks these artists and these tracks.
    pub open spec fn ranks(&self, artists: Seq<Seq<char>>, tracks: Seq<Seq<char>>) -> bool {
        &&& is_ranking(ranking_of(self.artists@), artists)
        &&& is_ranking(ranking_of(self.tracks@), tracks)
    }
}

/// What the caller is to do next.
#[derive(Clone, Debug, PartialEq, Eq)]
pub enum Action {
    /// Send one lookup for the identifiers of `batch`. `attempt` counts the
    /// failed tries for this batch so far.
    Lookup { batch: String, attempt: u32 },
    /// Show the report; the run is over.
    Report(Report),
    /// Give the error out; the run is over.
    Abort(RunError),
}

/// Where a run stands.
#[derive(Clone, Debug, PartialEq, Eq)]
pub enum Run {
    /// The export has not come yet.
    Reading,
    /// The lookup of batch number `next` is under way, after `attempts`
    /// failed tries.
    Resolving {
        artists: Vec<Artist>,
        tracks: Vec<Track>,
        batches: Vec<String>,
        next: usize,
        attempts: u32,
    },
    /// The run is over.
    Finished,
}

/// The artists of `pairs`, in order.
pub open spec fn artists_in(pairs: Seq<(Seq<char>, Seq<char>)>) -> Seq<Seq<char>> {
    pairs.map_values(|pair: (Seq<char>, Seq<char>)| pair.0)
}

/// The tracks of `pairs`, in order.
pub open spec fn tracks_in(pairs: Seq<(Seq<char>, Seq<char>)>) -> Seq<Seq<char>> {
    pairs.map_values(|pair: (Seq<char>, Seq<char>)| pair.1)
}

/// Whether `action` asks for the lookup of `batch`, after `attempt` failed
/// tries.
pub open spec fn asks(action: Action, batch: Seq<char>, attempt: int) -> bool {
    action matches Action::Lookup { batch: text, attempt: tries } && text@ == batch && tries
        == attempt
}

/// Whether `action` is a report that ranks the artists and the tracks of
/// `pairs`.
pub open spec fn reports(action: Action, pairs: Seq<(Seq<char>, Seq<char>)>) -> bool {
    action matches Action::Report(report) && report.ranks(artists_in(pairs), tracks_in(pairs))
}

/// Whether `run` waits for the lookup of batch number `next` of `batches`,
/// with `pairs` found so far.
pub open spec fn resolving(
    run: Run,
    pairs: Seq<(Seq<char>, Seq<char>)>,
    batches: Seq<Seq<char>>,
    next: int,
    attempts: int,
) -> bool {
    &&& run matches Run::Resolving { artists, tracks, batches: texts, next: at, attempts: tries }
    &&& artists.len() == tracks.len()
    &&& pairs_of(artists@, tracks@) == pairs
    &&& texts_of(texts@) == batches
    &&& at == next
    &&& tries == attempts
}

/// What follows the export. An unusable record ends the run with the first
/// such record as the error. Otherwise the identifiers are batched: with no
/// batch the run ends with the report, else the first lookup is asked for.
pub open spec fn follows_export(
    records: Seq<HistoryRecord>,
    year: u64,
    after: Run,
    action: Action,
) -> bool {
    let pairs = listens(records, year);
    let batches = batch_texts(references(records, year), BATCH_LIMIT as nat);
    if !faultless(records, year) {
        &&& after is Finished
        &&& action matches Action::Abort(RunError::Input(error))
        &&& is_first_fault(records, year, error)
    } else if batches.len() == 0 {
        after is Finished && reports(action, pairs)
    } else {
        resolving(after, pairs, batches, 0, 0) && asks(action, batches[0], 0)
    }
}

/// What follows an answer: its items join what was found; the next batch is
/// asked for, or, after the last one, the run ends with the report.
pub open spec fn follows_answer(
    artists: Seq<Artist>,
    tracks: Seq<Track>,
    batches: Seq<String>,
    next: usize,
    items: Seq<ResolvedMetadata>,
    after: Run,
    action: Action,
) -> bool {
    let pairs = pairs_of(artists, tracks) + resolved_pairs(items);
    if next + 1 < batches.len() {
        resolving(after, pairs, texts_of(batches), next + 1, 0) && asks(
            action,
            batches[next + 1]@,
            0,
        )
    } else {
        after is Finished && reports(action, pairs)
    }
}

/// What follows a failed lookup: the same batch is asked for again while the
/// failure may pass and the tries are not used up; otherwise the run ends
/// with an error that names the batch.
pub open spec fn follows_failure(
    artists: Seq<Artist>,
    tracks: Seq<Track>,
    batches: Seq<String>,
    next: usize,
    attempts: u32,
    failure: LookupFailure,
    after: Run,
    action: Action,
) -> bool {
    if failure == LookupFailure::Retryable && attempts < RETRY_LIMIT {
        resolving(after, pairs_of(artists, tracks), texts_of(batches), next as int, attempts + 1)
            && asks(action, batches[next as int]@, attempts + 1)
    } else {
        &&& after is Finished
        &&& action matches Action::Abort(RunError::Lookup { batch, failure: reason })
        &&& batch@ == batches[next as int]@
        &&& reason == failure
    }
}

/// Whether `after` and `action` are what `event` leads to from `before`.
pub open spec fn follows(before: Run, year: u64, event: Event, after: Run, action: Action) -> bool {
    match (before, event) {
        (Run::Reading, Event::Export(Err(failure))) => {
            &&& after is Finished
            &&& action matches Action::Abort(RunError::Export(reason))
            &&& reason == failure
        },
        (Run::Reading, Event::Export(Ok(records))) => follows_export(records@, year, after, action),
        (
            Run::Resolving { artists, tracks, batches, next, attempts },
            Event::Resolved(items),
        ) => follows_answer(artists@, tracks@, batches@, next, items@, after, action),
        (
            Run::Resolving { artists, tracks, batches, next, attempts },
            Event::LookupFailed(failure),
        ) => follows_failure(artists@, tracks@, batches@, next, attempts, failure, after, action),
        _ => after is Finished && action matches Action::Abort(RunError::OutOfTurn),
    }
}

/// Ranks artists and tracks.
fn conclude(artists: Vec<Artist>, tracks: Vec<Track>) -> (action: Action)
    requires
        artists.len() == tracks.len(),
    ensures
        reports(action, pairs_of(artists@, tracks@)),
{
    proof {
        let pairs = pairs_of(artists@, tracks@);
        assert(names_of(artists@) =~= artists_in(pairs));
        assert(names_of(tracks@) =~= tracks_in(pairs));
    }
    let ranked_artists = occurence_sort(artists);
    let ranked_tracks = occurence_sort(tracks);
    Action::Report(Report { artists: ranked_artists, tracks: ranked_tracks })
}

impl Run {
    /// Whether the state is one that a run can be in.
    pub open spec fn wf(&self) -> bool {
        match self {
            Run::Resolving { artists, tracks, batches, next, attempts } => {
                &&& artists.len() == tracks.len()
                &&& *next < batches.len()
                &&& *attempts <= RETRY_LIMIT
            },
            _ => true,
        }
    }

    /// Tests whether the state is one that a run can be in.
    pub fn well_formed(&self) -> (ok: bool)
        ensures
            ok == self.wf(),
    {
        match self {
            Run::Resolving { artists, tracks, batches, next, attempts } => {
                artists.len() == tracks.len() && *next < batches.len() && *attempts <= RETRY_LIMIT
            },
            _ => true,
        }
    }

    /// A run that waits for the export.
    pub fn new() -> (run: Run)
        ensures
            run is Reading,
            run.wf(),
    {
        Run::Reading
    }

    /// Takes the next event and says what to do. `conf` gives the year whose
    /// records count.
    pub fn step(self, conf: &Args, event: Event) -> (next: (Run, Action))
        requires
            self.wf(),
        ensures
            next.0.wf(),
            follows(self, conf.year, event, next.0, next.1),
    {
        match self {
            Run::Reading => match event {
                Event::Export(Err(failure)) => (
                    Run::Finished,
                    Action::Abort(RunError::Export(failure)),
                ),
                Event::Export(Ok(records)) => match parse(&records, conf) {
                    Err(error) => {
                        proof {
                            assert(records@.take(error.index as int + 1)[error.index as int]
                                == records@[error.index as int]);
                        }
                        (Run::Finished, Action::Abort(RunError::Input(error)))
                    },
                    Ok(found) => {
                        let batches = batch_identifiers(&found.identifiers, BATCH_LIMIT);
                        if batches.len() == 0 {
                            (Run::Finished, conclude(found.artists, found.tracks))
                        } else {
                            let batch = batches[0].clone();
                            (
                                Run::Resolving {
                                    artists: found.artists,
                                    tracks: found.tracks,
                                    batches,
                                    next: 0,
                                    attempts: 0,
                                },
                                Action::Lookup { batch, attempt: 0 },
                            )
                        }
                    },
                },
                _ => (Run::Finished, Action::Abort(RunError::OutOfTurn)),
            },
            Run::Resolving { artists, tracks, batches, next, attempts } => match event {
                Event::Resolved(items) => {
                    let mut artists = artists;
                    let mut tracks = tracks;
                    absorb(&items, &mut artists, &mut tracks);
                    if next + 1 < batches.len() {
                        let batch = batches[next + 1].clone();
                        (
                            Run::Resolving { artists, tracks, batches, next: next + 1, attempts: 0 },
                            Action::Lookup { batch, attempt: 0 },
                        )
                    } else {
                        (Run::Finished, conclude(artists, tracks))
                    }
                },
                Event::LookupFailed(failure) => {
                    let batch = batches[next].clone();
                    if failure == LookupFailure::Retryable && attempts < RETRY_LIMIT {
                        (
                            Run::Resolving {
                                artists,
                                tracks,
                                batches,
                                next,
                                attempts: attempts + 1,
                            },
                            Action::Lookup { batch, attempt: attempts + 1 },
                        )
                    } else {
                        (Run::Finished, Action::Abort(RunError::Lookup { batch, failure }))
                    }
                },
                _ => (Run::Finished, Action::Abort(RunError::OutOfTurn)),
            },
            Run::Finished => (Run::Finished, Action::Abort(RunError::OutOfTurn)),
        }
    }
}

} // verus!
