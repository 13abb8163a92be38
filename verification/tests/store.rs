use chunk_world::store::{all_can_grow, inc_refs};
use std::collections::HashMap;

#[test]
fn inc_refs_counts_every_id_and_moves_the_new_ones() {
    let mut world_refs: HashMap<i64, u16> = HashMap::new();
    world_refs.insert(1, 2);
    world_refs.insert(9, 1);
    let mut world_objs = vec!["one", "nine"];
    let mut chunk_objs: HashMap<i64, &str> = HashMap::new();
    chunk_objs.insert(1, "one again");
    chunk_objs.insert(4, "four");
    chunk_objs.insert(3, "three");
    chunk_objs.insert(7, "not referred to");
    let chunk_refs = vec![4, 1, 3];
    inc_refs(&chunk_refs, &mut world_refs, &mut chunk_objs, &mut world_objs);
    assert_eq!(world_objs, vec!["one", "nine", "four", "three"]);
    assert_eq!(world_refs.len(), 4);
    assert_eq!(world_refs[&1], 3);
    assert_eq!(world_refs[&9], 1);
    assert_eq!(world_refs[&4], 1);
    assert_eq!(world_refs[&3], 1);
    assert_eq!(chunk_objs.len(), 2);
    assert_eq!(chunk_objs[&1], "one again");
    assert_eq!(chunk_objs[&7], "not referred to");
}

#[test]
fn inc_refs_without_ids_changes_nothing() {
    let mut world_refs: HashMap<i64, u16> = HashMap::new();
    world_refs.insert(1, 65535);
    let mut world_objs = vec![1u8];
    let mut chunk_objs: HashMap<i64, u8> = HashMap::new();
    chunk_objs.insert(1, 2);
    inc_refs(&vec![], &mut world_refs, &mut chunk_objs, &mut world_objs);
    assert_eq!(world_refs[&1], 65535);
    assert_eq!(world_objs, vec![1]);
    assert_eq!(chunk_objs[&1], 2);
}

#[test]
fn all_can_grow_finds_the_count_at_its_limit() {
    let mut refs: HashMap<i64, u16> = HashMap::new();
    refs.insert(1, 65534);
    refs.insert(2, 65535);
    refs.insert(3, 1);
    assert!(all_can_grow(&refs, &vec![]));
    assert!(all_can_grow(&refs, &vec![1, 3, 4]));
    assert!(!all_can_grow(&refs, &vec![2]));
    assert!(!all_can_grow(&refs, &vec![1, 3, 2]));
    assert!(!all_can_grow(&refs, &vec![2, 1]));
}
