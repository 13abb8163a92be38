use chunk_world::cache::{
    get_chunk_path, get_osm_path, get_save_dir, push_decimal, push_decimal_nat,
};

fn dec(n: i32) -> String {
    let mut s = String::new();
    push_decimal(&mut s, n);
    s
}

#[test]
fn decimal_writes_the_digits() {
    assert_eq!(dec(0), "0");
    assert_eq!(dec(7), "7");
    assert_eq!(dec(10), "10");
    assert_eq!(dec(1234567890), "1234567890");
    assert_eq!(dec(-1), "-1");
    assert_eq!(dec(-905), "-905");
    assert_eq!(dec(i32::MAX), "2147483647");
    assert_eq!(dec(i32::MIN), "-2147483648");
}

#[test]
fn decimal_agrees_with_the_standard_formatting() {
    for n in [-100000, -99, -10, -9, 9, 11, 99, 100, 101, 65535, 1 << 23] {
        assert_eq!(dec(n), format!("{}", n));
    }
}

#[test]
fn decimal_is_appended_to_what_is_there() {
    let mut s = String::from("n = ");
    push_decimal_nat(&mut s, 18446744073709551615);
    assert_eq!(s, "n = 18446744073709551615");
    push_decimal(&mut s, -3);
    assert_eq!(s, "n = 18446744073709551615-3");
}

#[test]
fn chunk_path_names_the_chunk() {
    assert_eq!(get_chunk_path("/tmp/worlds/test", (0, 0)), "/tmp/worlds/test/chunks/r.0.0.bin");
    assert_eq!(get_chunk_path("/tmp/worlds/test", (0, -1)), "/tmp/worlds/test/chunks/r.0.-1.bin");
    assert_eq!(get_chunk_path("w", (-12, 345)), "w/chunks/r.-12.345.bin");
    assert_eq!(
        get_chunk_path("", (i32::MIN, i32::MAX)),
        "/chunks/r.-2147483648.2147483647.bin"
    );
}

#[test]
fn different_chunks_have_different_paths() {
    let coords = [(1, 11), (11, 1), (1, -11), (-1, 11), (111, 0), (0, 111), (1, 1), (-1, -1)];
    for (i, a) in coords.iter().enumerate() {
        for (j, b) in coords.iter().enumerate() {
            assert_eq!(i == j, get_chunk_path("dir", *a) == get_chunk_path("dir", *b));
        }
    }
}

#[test]
fn osm_path_holds_the_key() {
    assert_eq!(
        get_osm_path("/tmp/worlds/test", "51.8907_51.8972_-0.8438_-0.8543"),
        "/tmp/worlds/test/osm/51.8907_51.8972_-0.8438_-0.8543.osm"
    );
    assert_eq!(get_osm_path("", ""), "/osm/.osm");
}

#[test]
fn save_dir_is_the_world_below_the_root() {
    assert_eq!(get_save_dir("/tmp/worlds", "test"), "/tmp/worlds/test");
}
