use chunk_world::error::LoadError;

#[test]
fn already_loaded_names_the_chunk() {
    assert_eq!(
        LoadError::ChunkAlreadyLoaded((3, -4)).message(),
        "the chunk (3, -4) is already loaded"
    );
    assert_eq!(
        LoadError::ChunkAlreadyLoaded((3, -4)).message(),
        format!("the chunk {:?} is already loaded", (3, -4))
    );
}

#[test]
fn fetch_failed_gives_the_reason() {
    assert_eq!(
        LoadError::FetchFailed(String::from("Bad server status code 429")).message(),
        "osm request failed: Bad server status code 429"
    );
}

#[test]
fn parse_failed_gives_the_code() {
    assert_eq!(LoadError::ParseFailed(2).message(), "failed to parse osm with err code 2");
    assert_eq!(LoadError::ParseFailed(-17).message(), "failed to parse osm with err code -17");
}

#[test]
fn io_failed_is_its_reason() {
    assert_eq!(LoadError::IoFailed(String::from("permission denied")).message(), "permission denied");
}

#[test]
fn the_other_errors_have_a_fixed_text() {
    assert_eq!(LoadError::InvalidCoordinate.message(), "invalid coordinate");
    assert_eq!(LoadError::ChannelClosed.message(), "receiving on a closed channel");
}
