//! How one chunk is loaded: from the cache of parsed chunks if it is there,
//! else from the cache of fetched map data, else from the map service; and
//! what is kept in the two caches on the way.
//!
//! The loader decides; it reads and writes nothing itself. It names the next
//! thing to do, and is told how that went.

use crate::entity::Point;
use crate::error::{LoadError, LoadErrorView};
use crate::parsed::{PartialWorld, PartialWorldView};
use vstd::prelude::*;

verus! {

/// How far the load of a chunk has come.
#[derive(Debug, Clone, Copy, PartialEq, Eq, Structural)]
pub enum LoadPhase {
    /// Nothing was done yet.
    Start,
    /// The cache of parsed chunks is being asked.
    ParsedLookup,
    /// The cache of fetched map data is being asked.
    RawLookup,
    /// The map service is being asked.
    Fetching,
    /// The fetched map data is being written to its cache.
    StoringRaw,
    /// The map data is being parsed.
    Parsing,
    /// The parsed chunk is being written to its cache.
    StoringParsed,
    /// The outcome was delivered.
    Done,
}

/// How the last thing that the loader asked for went.
#[derive(Debug)]
pub enum LoadEvent {
    /// The cache of parsed chunks holds the chunk.
    ParsedFound(PartialWorld),
    /// The cache of parsed chunks does not hold the chunk.
    ParsedMissing,
    /// The cache of parsed chunks holds something that cannot be read.
    ParsedUnreadable,
    /// The cache of fetched map data holds the data.
    RawFound(String),
    /// The cache of fetched map data does not hold the data.
    RawMissing,
    /// The cache of fetched map data holds a file that cannot be read, for
    /// the reason held.
    RawUnreadable(String),
    /// The map service delivered the data.
    Fetched(String),
    /// The map service did not deliver, for the reason held.
    FetchFailed(String),
    /// The cache took what it was given.
    Stored,
    /// The cache did not take what it was given.
    StoreFailed,
    /// The parser returned `code`, and `chunk` where the code is zero.
    ParserReturned { code: i32, chunk: PartialWorld },
    /// The parser could not be given the map data, or gave what cannot be
    /// taken over, with the error held.
    ParseAborted(LoadError),
}

/// What the loader asks for next.
#[derive(Debug)]
pub enum LoadAction {
    /// Look the chunk up in the cache of parsed chunks.
    LookupParsed,
    /// Look the map data up in the cache of fetched map data.
    LookupRaw,
    /// Take a permit from the pool, fetch the map data, give the permit back.
    Fetch,
    /// Write the loader's map data to the cache of fetched map data.
    StoreRaw,
    /// Parse the loader's map data.
    Parse,
    /// Write the loader's chunk to the cache of parsed chunks.
    StoreParsed,
    /// The load is over, with this outcome.
    Deliver(Result<PartialWorld, LoadError>),
}

/// The load of one chunk.
#[derive(Debug)]
pub struct ChunkLoader {
    coord: (i32, i32),
    origin: Point,
    phase: LoadPhase,
    payload: Option<String>,
    chunk: Option<PartialWorld>,
}

pub enum LoadEventView {
    ParsedFound(PartialWorldView),
    ParsedMissing,
    ParsedUnreadable,
    RawFound(Seq<char>),
    RawMissing,
    RawUnreadable(Seq<char>),
    Fetched(Seq<char>),
    FetchFailed(Seq<char>),
    Stored,
    StoreFailed,
    ParserReturned { code: i32, chunk: PartialWorldView },
    ParseAborted(LoadErrorView),
}

pub enum LoadActionView {
    LookupParsed,
    LookupRaw,
    Fetch,
    StoreRaw,
    Parse,
    StoreParsed,
    Deliver(Result<PartialWorldView, LoadErrorView>),
}

pub struct ChunkLoaderView {
    pub coord: (i32, i32),
    pub origin: Point,
    pub phase: LoadPhase,
    /// The map data in hand, while it is stored and parsed.
    pub payload: Option<Seq<char>>,
    /// The parsed chunk in hand, while it is stored.
    pub chunk: Option<PartialWorldView>,
}

impl View for LoadEvent {
    type V = LoadEventView;

    open spec fn view(&self) -> LoadEventView {
        match *self {
            LoadEvent::ParsedFound(chunk) => LoadEventView::ParsedFound(chunk@),
            LoadEvent::ParsedMissing => LoadEventView::ParsedMissing,
            LoadEvent::ParsedUnreadable => LoadEventView::ParsedUnreadable,
            LoadEvent::RawFound(payload) => LoadEventView::RawFound(payload@),
            LoadEvent::RawMissing => LoadEventView::RawMissing,
            LoadEvent::RawUnreadable(reason) => LoadEventView::RawUnreadable(reason@),
            LoadEvent::Fetched(payload) => LoadEventView::Fetched(payload@),
            LoadEvent::FetchFailed(reason) => LoadEventView::FetchFailed(reason@),
            LoadEvent::Stored => LoadEventView::Stored,
            LoadEvent::StoreFailed => LoadEventView::StoreFailed,
            LoadEvent::ParserReturned { code, chunk } => LoadEventView::ParserReturned {
                code,
                chunk: chunk@,
            },
            LoadEvent::ParseAborted(e) => LoadEventView::ParseAborted(e@),
        }
    }
}

impl View for LoadAction {
    type V = LoadActionView;

    open spec fn view(&self) -> LoadActionView {
        match *self {
            LoadAction::LookupParsed => LoadActionView::LookupParsed,
            LoadAction::LookupRaw => LoadActionView::LookupRaw,
            LoadAction::Fetch => LoadActionView::Fetch,
            LoadAction::StoreRaw => LoadActionView::StoreRaw,
            LoadAction::Parse => LoadActionView::Parse,
            LoadAction::StoreParsed => LoadActionView::StoreParsed,
            LoadAction::Deliver(Ok(chunk)) => LoadActionView::Deliver(Ok(chunk@)),
            LoadAction::Deliver(Err(e)) => LoadActionView::Deliver(Err(e@)),
        }
    }
}

impl View for ChunkLoader {
    type V = ChunkLoaderView;

    closed spec fn view(&self) -> ChunkLoaderView {
        ChunkLoaderView {
            coord: self.coord,
            origin: self.origin,
            phase: self.phase,
            payload: match self.payload {
                Some(payload) => Some(payload@),
                None => None,
            },
            chunk: match self.chunk {
                Some(chunk) => Some(chunk@),
                None => None,
            },
        }
    }
}

/// Whether `event` answers what a loader in `phase` asked for.
pub open spec fn answers(phase: LoadPhase, event: LoadEventView) -> bool {
    match phase {
        LoadPhase::ParsedLookup => event is ParsedFound || event is ParsedMissing
            || event is ParsedUnreadable,
        LoadPhase::RawLookup => event is RawFound || event is RawMissing || event is RawUnreadable,
        LoadPhase::Fetching => event is Fetched || event is FetchFailed,
        LoadPhase::StoringRaw => event is Stored || event is StoreFailed,
        LoadPhase::Parsing => event is ParserReturned || event is ParseAborted,
        LoadPhase::StoringParsed => event is Stored || event is StoreFailed,
        LoadPhase::Start => false,
        LoadPhase::Done => false,
    }
}

/// Whether the chunk that `event` brings, if it brings one that will be
/// delivered, can be written relative to `origin`.
pub open spec fn event_fits(event: LoadEventView, origin: Point) -> bool {
    match event {
        LoadEventView::ParsedFound(chunk) => chunk.fits_relative_to(origin),
        LoadEventView::ParserReturned { code, chunk } => code == 0 ==> chunk.fits_relative_to(
            origin,
        ),
        _ => true,
    }
}

impl ChunkLoaderView {
    /// The loader holds map data exactly while it stores or parses it, and a
    /// chunk exactly while it stores it; that chunk can be written relative
    /// to the origin.
    pub open spec fn wf(self) -> bool {
        &&& self.payload is Some <==> self.phase == LoadPhase::StoringRaw || self.phase
            == LoadPhase::Parsing
        &&& self.chunk is Some <==> self.phase == LoadPhase::StoringParsed
        &&& self.chunk matches Some(chunk) ==> chunk.fits_relative_to(self.origin)
    }

    /// The loader in another phase, with nothing in hand.
    pub open spec fn at(self, phase: LoadPhase) -> ChunkLoaderView {
        ChunkLoaderView { phase, payload: None, chunk: None, ..self }
    }

    /// The loader after `event`, and what it asks for next; nothing where
    /// `event` does not answer what the loader asked for.
    ///
    /// A chunk found in the cache of parsed chunks is delivered. Else map
    /// data found in its cache is parsed; else the data is fetched and
    /// stored, then parsed. A parsed chunk is stored, then delivered. What
    /// is delivered is written relative to the origin. A cache that does not
    /// take what it is given stops nothing. A file of map data that cannot
    /// be read, a fetch that fails and a parser that returns another code
    /// than zero, or is not reached at all, end the load with their error.
    pub open spec fn next(self, event: LoadEventView) -> Option<
        (ChunkLoaderView, LoadActionView),
    > {
        match (self.phase, event) {
            (LoadPhase::ParsedLookup, LoadEventView::ParsedFound(chunk)) => Some(
                (
                    self.at(LoadPhase::Done),
                    LoadActionView::Deliver(Ok(chunk.relative_to(self.origin))),
                ),
            ),
            (LoadPhase::ParsedLookup, LoadEventView::ParsedMissing)
            | (LoadPhase::ParsedLookup, LoadEventView::ParsedUnreadable) => Some(
                (self.at(LoadPhase::RawLookup), LoadActionView::LookupRaw),
            ),
            (LoadPhase::RawLookup, LoadEventView::RawFound(payload)) => Some(
                (
                    ChunkLoaderView { payload: Some(payload), ..self.at(LoadPhase::Parsing) },
                    LoadActionView::Parse,
                ),
            ),
            (LoadPhase::RawLookup, LoadEventView::RawUnreadable(reason)) => Some(
                (
                    self.at(LoadPhase::Done),
                    LoadActionView::Deliver(Err(LoadErrorView::IoFailed(reason))),
                ),
            ),
            (LoadPhase::RawLookup, LoadEventView::RawMissing) => Some(
                (self.at(LoadPhase::Fetching), LoadActionView::Fetch),
            ),
            (LoadPhase::Fetching, LoadEventView::Fetched(payload)) => Some(
                (
                    ChunkLoaderView { payload: Some(payload), ..self.at(LoadPhase::StoringRaw) },
                    LoadActionView::StoreRaw,
                ),
            ),
            (LoadPhase::Fetching, LoadEventView::FetchFailed(reason)) => Some(
                (
                    self.at(LoadPhase::Done),
                    LoadActionView::Deliver(Err(LoadErrorView::FetchFailed(reason))),
                ),
            ),
            (LoadPhase::StoringRaw, LoadEventView::Stored)
            | (LoadPhase::StoringRaw, LoadEventView::StoreFailed) => Some(
                (ChunkLoaderView { phase: LoadPhase::Parsing, ..self }, LoadActionView::Parse),
            ),
            (LoadPhase::Parsing, LoadEventView::ParserReturned { code, chunk }) => if code == 0 {
                Some(
                    (
                        ChunkLoaderView { chunk: Some(chunk), ..self.at(LoadPhase::StoringParsed) },
                        LoadActionView::StoreParsed,
                    ),
                )
            } else {
                Some(
                    (
                        self.at(LoadPhase::Done),
                        LoadActionView::Deliver(Err(LoadErrorView::ParseFailed(code))),
                    ),
                )
            },
            (LoadPhase::Parsing, LoadEventView::ParseAborted(e)) => Some(
                (self.at(LoadPhase::Done), LoadActionView::Deliver(Err(e))),
            ),
            (LoadPhase::StoringParsed, LoadEventView::Stored)
            | (LoadPhase::StoringParsed, LoadEventView::StoreFailed) => match self.chunk {
                Some(chunk) => Some(
                    (
                        self.at(LoadPhase::Done),
                        LoadActionView::Deliver(Ok(chunk.relative_to(self.origin))),
                    ),
                ),
                None => None,
            },
            _ => None,
        }
    }
}

/// How many steps a load in `phase` has behind it at least.
pub open spec fn phase_rank(phase: LoadPhase) -> nat {
    match phase {
        LoadPhase::Start => 0,
        LoadPhase::ParsedLookup => 1,
        LoadPhase::RawLookup => 2,
        LoadPhase::Fetching => 3,
        LoadPhase::StoringRaw => 4,
        LoadPhase::Parsing => 5,
        LoadPhase::StoringParsed => 6,
        LoadPhase::Done => 7,
    }
}

/// A well-formed loader has an answer to every event that answers it, stays
/// well formed, and has come further: no load goes on for ever.
pub proof fn lemma_next_advances(loader: ChunkLoaderView, event: LoadEventView)
    requires
        loader.wf(),
        answers(loader.phase, event),
        event_fits(event, loader.origin),
    ensures
        loader.next(event) is Some,
        loader.next(event) matches Some((then, _)) ==> then.wf() && phase_rank(then.phase)
            > phase_rank(loader.phase),
{
}

/// The map service is asked only after both caches were asked and had
/// nothing to give.
pub proof fn lemma_fetch_follows_two_misses(
    loader: ChunkLoaderView,
    first: LoadEventView,
    second: LoadEventView,
)
    requires
        loader.phase == LoadPhase::ParsedLookup,
        loader.next(first) matches Some((then, _)) && then.next(second) matches Some(
            (_, LoadActionView::Fetch),
        ),
    ensures
        first is ParsedMissing || first is ParsedUnreadable,
        second is RawMissing,
{
}

/// Whatever asks for a fetch is a loader that asked the cache of fetched
/// map data and was told that the data is missing.
pub proof fn lemma_fetch_only_on_raw_miss(loader: ChunkLoaderView, event: LoadEventView)
    requires
        loader.next(event) matches Some((_, LoadActionView::Fetch)),
    ensures
        loader.phase == LoadPhase::RawLookup,
        event is RawMissing,
{
}

/// A cache that did not take what it was given changes nothing of the load.
pub proof fn lemma_store_failure_is_not_fatal(loader: ChunkLoaderView)
    ensures
        loader.next(LoadEventView::StoreFailed) == loader.next(LoadEventView::Stored),
{
}

/// What a load delivers without error is a chunk that a cache or the parser
/// gave, written relative to the origin.
pub proof fn lemma_delivered_is_relative(
    loader: ChunkLoaderView,
    event: LoadEventView,
    delivered: PartialWorldView,
)
    requires
        loader.wf(),
        loader.next(event) matches Some((_, LoadActionView::Deliver(Ok(chunk)))) && chunk
            == delivered,
    ensures
        (event matches LoadEventView::ParsedFound(found) && delivered == found.relative_to(
            loader.origin,
        )) || (loader.chunk matches Some(held) && delivered == held.relative_to(loader.origin)),
{
}

impl ChunkLoader {
    /// Well-formedness (see `ChunkLoaderView::wf`).
    pub open spec fn wf(&self) -> bool {
        self@.wf()
    }

    /// A loader for the chunk at `coord` in a world whose origin is
    /// projected onto `origin`.
    pub fn new(coord: (i32, i32), origin: Point) -> (loader: ChunkLoader)
        ensures
            loader@ == (ChunkLoaderView {
                coord,
                origin,
                phase: LoadPhase::Start,
                payload: None,
                chunk: None,
            }),
            loader.wf(),
    {
        ChunkLoader { coord, origin, phase: LoadPhase::Start, payload: None, chunk: None }
    }

    /// The chunk that is loaded.
    pub fn coord(&self) -> (c: (i32, i32))
        ensures
            c == self@.coord,
    {
        self.coord
    }

    /// How far the load has come.
    pub fn phase(&self) -> (p: LoadPhase)
        ensures
            p == self@.phase,
    {
        self.phase
    }

    /// The map data in hand, to be stored or parsed.
    pub fn payload(&self) -> (p: Option<&String>)
        ensures
            p is Some == self@.payload is Some,
            p matches Some(s) ==> self@.payload == Some(s@),
    {
        self.payload.as_ref()
    }

    /// The parsed chunk in hand, to be stored.
    pub fn chunk(&self) -> (c: Option<&PartialWorld>)
        ensures
            c is Some == self@.chunk is Some,
            c matches Some(chunk) ==> self@.chunk == Some(chunk@),
    {
        self.chunk.as_ref()
    }

    /// Whether `event` answers what the loader asked for.
    pub fn expects(&self, event: &LoadEvent) -> (b: bool)
        ensures
            b == answers(self@.phase, event@),
    {
        match self.phase {
            LoadPhase::ParsedLookup => match event {
                LoadEvent::ParsedFound(_) => true,
                LoadEvent::ParsedMissing => true,
                LoadEvent::ParsedUnreadable => true,
                _ => false,
            },
            LoadPhase::RawLookup => match event {
                LoadEvent::RawFound(_) => true,
                LoadEvent::RawMissing => true,
                LoadEvent::RawUnreadable(_) => true,
                _ => false,
            },
            LoadPhase::Fetching => match event {
                LoadEvent::Fetched(_) => true,
                LoadEvent::FetchFailed(_) => true,
                _ => false,
            },
            LoadPhase::StoringRaw => match event {
                LoadEvent::Stored => true,
                LoadEvent::StoreFailed => true,
                _ => false,
            },
            LoadPhase::Parsing => match event {
                LoadEvent::ParserReturned { .. } => true,
                LoadEvent::ParseAborted(_) => true,
                _ => false,
            },
            LoadPhase::StoringParsed => match event {
                LoadEvent::Stored => true,
                LoadEvent::StoreFailed => true,
                _ => false,
            },
            LoadPhase::Start => false,
            LoadPhase::Done => false,
        }
    }

    /// Whether the chunk that `event` brings can be written relative to the
    /// loader's origin (see `event_fits`).
    pub fn accepts(&self, event: &LoadEvent) -> (b: bool)
        ensures
            b == event_fits(event@, self@.origin),
    {
        match event {
            LoadEvent::ParsedFound(chunk) => chunk.fits_relative_to(&self.origin),
            LoadEvent::ParserReturned { code, chunk } => *code != 0 || chunk.fits_relative_to(
                &self.origin,
            ),
            _ => true,
        }
    }

    /// Begins the load: the cache of parsed chunks is asked first.
    pub fn start(&mut self) -> (action: LoadAction)
        requires
            old(self)@.phase == LoadPhase::Start,
            old(self).wf(),
        ensures
            final(self)@ == old(self)@.at(LoadPhase::ParsedLookup),
            final(self).wf(),
            action@ == LoadActionView::LookupParsed,
    {
        self.phase = LoadPhase::ParsedLookup;
        LoadAction::LookupParsed
    }

    /// Takes the answer to what the loader asked for, and says what to do
    /// next (see `ChunkLoaderView::next`).
    pub fn step(&mut self, event: LoadEvent) -> (action: LoadAction)
        requires
            old(self).wf(),
            answers(old(self)@.phase, event@),
            event_fits(event@, old(self)@.origin),
        ensures
            final(self).wf(),
            old(self)@.next(event@) == Some((final(self)@, action@)),
    {
        match self.phase {
            LoadPhase::ParsedLookup => match event {
                LoadEvent::ParsedFound(chunk) => {
                    let mut chunk = chunk;
                    chunk.make_coords_relative_to(&self.origin);
                    self.phase = LoadPhase::Done;
                    LoadAction::Deliver(Ok(chunk))
                },
                _ => {
                    self.phase = LoadPhase::RawLookup;
                    LoadAction::LookupRaw
                },
            },
            LoadPhase::RawLookup => match event {
                LoadEvent::RawFound(payload) => {
                    self.payload = Some(payload);
                    self.phase = LoadPhase::Parsing;
                    LoadAction::Parse
                },
                LoadEvent::RawUnreadable(reason) => {
                    self.phase = LoadPhase::Done;
                    LoadAction::Deliver(Err(LoadError::IoFailed(reason)))
                },
                _ => {
                    self.phase = LoadPhase::Fetching;
                    LoadAction::Fetch
                },
            },
            LoadPhase::Fetching => match event {
                LoadEvent::Fetched(payload) => {
                    self.payload = Some(payload);
                    self.phase = LoadPhase::StoringRaw;
                    LoadAction::StoreRaw
                },
                LoadEvent::FetchFailed(reason) => {
                    self.phase = LoadPhase::Done;
                    LoadAction::Deliver(Err(LoadError::FetchFailed(reason)))
                },
                // not reached: nothing else answers a fetch
                _ => LoadAction::Deliver(Err(LoadError::InvalidCoordinate)),
            },
            LoadPhase::StoringRaw => {
                self.phase = LoadPhase::Parsing;
                LoadAction::Parse
            },
            LoadPhase::Parsing => match event {
                LoadEvent::ParserReturned { code, chunk } => {
                    self.payload = None;
                    if code == 0 {
                        self.chunk = Some(chunk);
                        self.phase = LoadPhase::StoringParsed;
                        LoadAction::StoreParsed
                    } else {
                        self.phase = LoadPhase::Done;
                        LoadAction::Deliver(Err(LoadError::ParseFailed(code)))
                    }
                },
                LoadEvent::ParseAborted(e) => {
                    self.payload = None;
                    self.phase = LoadPhase::Done;
                    LoadAction::Deliver(Err(e))
                },
                // not reached: nothing else answers the parser's call
                _ => LoadAction::Deliver(Err(LoadError::InvalidCoordinate)),
            },
            LoadPhase::StoringParsed => {
                self.phase = LoadPhase::Done;
                match self.chunk.take() {
                    Some(chunk) => {
                        let mut chunk = chunk;
                        chunk.make_coords_relative_to(&self.origin);
                        LoadAction::Deliver(Ok(chunk))
                    },
                    // not reached: a loader that stores a chunk holds it
                    None => LoadAction::Deliver(Err(LoadError::InvalidCoordinate)),
                }
            },
            // not reached: before the start and after the end nothing is asked
            _ => LoadAction::Deliver(Err(LoadError::InvalidCoordinate)),
        }
    }
}

} // verus!
