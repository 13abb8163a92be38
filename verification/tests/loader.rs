use chunk_world::entity::{LandUse, LandUseType, Point, Road, RoadType};
use chunk_world::error::LoadError;
use chunk_world::loader::{ChunkLoader, LoadAction, LoadEvent, LoadPhase};
use chunk_world::parsed::PartialWorld;

fn pt(x: i32, y: i32) -> Point {
    Point { x, y }
}

fn chunk() -> PartialWorld {
    let mut pw = PartialWorld::new();
    pw.insert_road(Road {
        id: 1,
        road_type: RoadType::Motorway,
        segments: vec![pt(110, 220), pt(90, 180)],
        name: String::from("M1"),
    });
    pw.insert_land_use(LandUse {
        id: 2,
        land_use_type: LandUseType::Industrial,
        points: vec![pt(100, 200)],
    });
    pw
}

fn relative_chunk() -> PartialWorld {
    let mut pw = PartialWorld::new();
    pw.insert_road(Road {
        id: 1,
        road_type: RoadType::Motorway,
        segments: vec![pt(10, 20), pt(-10, -20)],
        name: String::from("M1"),
    });
    pw.insert_land_use(LandUse {
        id: 2,
        land_use_type: LandUseType::Industrial,
        points: vec![pt(0, 0)],
    });
    pw
}

fn started() -> ChunkLoader {
    let mut loader = ChunkLoader::new((3, 4), pt(100, 200));
    assert_eq!(loader.phase(), LoadPhase::Start);
    assert_eq!(loader.coord(), (3, 4));
    assert!(matches!(loader.start(), LoadAction::LookupParsed));
    assert_eq!(loader.phase(), LoadPhase::ParsedLookup);
    loader
}

fn step(loader: &mut ChunkLoader, event: LoadEvent) -> LoadAction {
    assert!(loader.expects(&event));
    assert!(loader.accepts(&event));
    loader.step(event)
}

fn delivered(action: LoadAction) -> Result<PartialWorld, LoadError> {
    match action {
        LoadAction::Deliver(result) => result,
        other => panic!("the load did not end: {:?}", other),
    }
}

#[test]
fn parsed_chunk_in_the_cache_is_delivered_relative() {
    let mut loader = started();
    let action = step(&mut loader, LoadEvent::ParsedFound(chunk()));
    assert_eq!(delivered(action), Ok(relative_chunk()));
    assert_eq!(loader.phase(), LoadPhase::Done);
    assert!(loader.payload().is_none());
    assert!(loader.chunk().is_none());
}

#[test]
fn map_data_in_the_cache_is_parsed_without_a_fetch() {
    let mut loader = started();
    assert!(matches!(step(&mut loader, LoadEvent::ParsedMissing), LoadAction::LookupRaw));
    assert_eq!(loader.phase(), LoadPhase::RawLookup);
    let action = step(&mut loader, LoadEvent::RawFound(String::from("<osm/>")));
    assert!(matches!(action, LoadAction::Parse));
    assert_eq!(loader.payload(), Some(&String::from("<osm/>")));
    let action = step(&mut loader, LoadEvent::ParserReturned { code: 0, chunk: chunk() });
    assert!(matches!(action, LoadAction::StoreParsed));
    assert!(loader.payload().is_none());
    assert_eq!(loader.chunk(), Some(&chunk()));
    let action = step(&mut loader, LoadEvent::Stored);
    assert_eq!(delivered(action), Ok(relative_chunk()));
    assert_eq!(loader.phase(), LoadPhase::Done);
}

#[test]
fn missing_everywhere_is_fetched_stored_parsed_and_stored() {
    let mut loader = started();
    assert!(matches!(step(&mut loader, LoadEvent::ParsedUnreadable), LoadAction::LookupRaw));
    assert!(matches!(step(&mut loader, LoadEvent::RawMissing), LoadAction::Fetch));
    assert_eq!(loader.phase(), LoadPhase::Fetching);
    let action = step(&mut loader, LoadEvent::Fetched(String::from("<osm>1</osm>")));
    assert!(matches!(action, LoadAction::StoreRaw));
    assert_eq!(loader.payload(), Some(&String::from("<osm>1</osm>")));
    assert!(matches!(step(&mut loader, LoadEvent::Stored), LoadAction::Parse));
    assert_eq!(loader.payload(), Some(&String::from("<osm>1</osm>")));
    assert_eq!(loader.phase(), LoadPhase::Parsing);
    let action = step(&mut loader, LoadEvent::ParserReturned { code: 0, chunk: chunk() });
    assert!(matches!(action, LoadAction::StoreParsed));
    assert_eq!(loader.phase(), LoadPhase::StoringParsed);
    assert_eq!(delivered(step(&mut loader, LoadEvent::Stored)), Ok(relative_chunk()));
}

#[test]
fn cache_that_takes_nothing_stops_nothing() {
    let mut loader = started();
    step(&mut loader, LoadEvent::ParsedMissing);
    step(&mut loader, LoadEvent::RawMissing);
    step(&mut loader, LoadEvent::Fetched(String::from("data")));
    assert!(matches!(step(&mut loader, LoadEvent::StoreFailed), LoadAction::Parse));
    assert_eq!(loader.payload(), Some(&String::from("data")));
    step(&mut loader, LoadEvent::ParserReturned { code: 0, chunk: chunk() });
    assert_eq!(delivered(step(&mut loader, LoadEvent::StoreFailed)), Ok(relative_chunk()));
}

#[test]
fn unreadable_map_data_ends_the_load() {
    let mut loader = started();
    step(&mut loader, LoadEvent::ParsedMissing);
    let action = step(&mut loader, LoadEvent::RawUnreadable(String::from("is a directory")));
    assert_eq!(delivered(action), Err(LoadError::IoFailed(String::from("is a directory"))));
    assert_eq!(loader.phase(), LoadPhase::Done);
}

#[test]
fn failed_fetch_ends_the_load() {
    let mut loader = started();
    step(&mut loader, LoadEvent::ParsedMissing);
    step(&mut loader, LoadEvent::RawMissing);
    let action = step(&mut loader, LoadEvent::FetchFailed(String::from("Bad server status code 504")));
    assert_eq!(
        delivered(action),
        Err(LoadError::FetchFailed(String::from("Bad server status code 504")))
    );
    assert_eq!(loader.phase(), LoadPhase::Done);
    assert!(loader.payload().is_none());
}

#[test]
fn parser_code_other_than_zero_ends_the_load() {
    let mut loader = started();
    step(&mut loader, LoadEvent::ParsedMissing);
    step(&mut loader, LoadEvent::RawFound(String::from("junk")));
    let action = step(&mut loader, LoadEvent::ParserReturned { code: 4, chunk: chunk() });
    assert_eq!(delivered(action), Err(LoadError::ParseFailed(4)));
    assert_eq!(loader.phase(), LoadPhase::Done);
    assert!(loader.chunk().is_none());
    assert!(loader.payload().is_none());
}

#[test]
fn loader_expects_only_answers_to_what_it_asked() {
    let mut loader = ChunkLoader::new((0, 0), pt(0, 0));
    assert!(!loader.expects(&LoadEvent::ParsedMissing));
    loader.start();
    assert!(loader.expects(&LoadEvent::ParsedMissing));
    assert!(loader.expects(&LoadEvent::ParsedFound(PartialWorld::new())));
    assert!(!loader.expects(&LoadEvent::RawMissing));
    assert!(!loader.expects(&LoadEvent::Stored));
    loader.step(LoadEvent::ParsedMissing);
    assert!(loader.expects(&LoadEvent::RawMissing));
    assert!(loader.expects(&LoadEvent::RawFound(String::new())));
    assert!(loader.expects(&LoadEvent::RawUnreadable(String::new())));
    assert!(!loader.expects(&LoadEvent::Fetched(String::new())));
    loader.step(LoadEvent::RawMissing);
    assert!(loader.expects(&LoadEvent::Fetched(String::new())));
    assert!(loader.expects(&LoadEvent::FetchFailed(String::new())));
    assert!(!loader.expects(&LoadEvent::StoreFailed));
    loader.step(LoadEvent::Fetched(String::new()));
    assert!(loader.expects(&LoadEvent::Stored));
    assert!(loader.expects(&LoadEvent::StoreFailed));
    assert!(!loader.expects(&LoadEvent::ParserReturned { code: 0, chunk: PartialWorld::new() }));
    loader.step(LoadEvent::Stored);
    assert!(loader.expects(&LoadEvent::ParserReturned { code: 1, chunk: PartialWorld::new() }));
    assert!(!loader.expects(&LoadEvent::Stored));
    loader.step(LoadEvent::ParserReturned { code: 1, chunk: PartialWorld::new() });
    assert_eq!(loader.phase(), LoadPhase::Done);
    assert!(!loader.expects(&LoadEvent::Stored));
    assert!(!loader.expects(&LoadEvent::ParsedMissing));
}

#[test]
fn loader_accepts_only_chunks_that_fit_its_origin() {
    let loader = ChunkLoader::new((0, 0), pt(-1, 0));
    let mut far = PartialWorld::new();
    far.insert_road(Road {
        id: 1,
        road_type: RoadType::Unknown,
        segments: vec![pt(i32::MAX, 0)],
        name: String::new(),
    });
    assert!(loader.accepts(&LoadEvent::ParsedFound(chunk())));
    assert!(!loader.accepts(&LoadEvent::ParsedFound(far.clone())));
    assert!(!loader.accepts(&LoadEvent::ParserReturned { code: 0, chunk: far.clone() }));
    assert!(loader.accepts(&LoadEvent::ParserReturned { code: 9, chunk: far }));
    assert!(loader.accepts(&LoadEvent::RawMissing));
}

#[test]
fn parser_that_is_not_reached_ends_the_load_with_its_error() {
    let mut loader = started();
    step(&mut loader, LoadEvent::ParsedMissing);
    step(&mut loader, LoadEvent::RawFound(String::from("a\0b")));
    let action = step(&mut loader, LoadEvent::ParseAborted(LoadError::InvalidCoordinate));
    assert_eq!(delivered(action), Err(LoadError::InvalidCoordinate));
    assert_eq!(loader.phase(), LoadPhase::Done);
    assert!(loader.payload().is_none());
}
