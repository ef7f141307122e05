use std::cmp::Ordering;
use topfiles::candidate::{FileStat, Filesize};
use topfiles::threshold::SharedThreshold;
use topfiles::topk::{Placement, TopKSet};

fn file(path: &str, size: u64) -> Filesize {
    Filesize {
        path: path.to_string(),
        size,
        modified: "-".to_string(),
        created: "-".to_string(),
        used: "-".to_string(),
    }
}

fn paths(top: &TopKSet) -> Vec<String> {
    top.entries().iter().map(|f| f.path.clone()).collect()
}

#[test]
fn a_new_ranking_is_empty() {
    let top = TopKSet::new(3, 7);
    assert_eq!(top.len(), 0);
    assert_eq!(top.floor(), 7);
    assert!(top.entries().is_empty());
}

#[test]
fn files_are_placed_by_size() {
    let mut top = TopKSet::new(5, 0);
    for (p, s) in [("a", 30u64), ("b", 10), ("c", 20), ("d", 40), ("e", 20)] {
        top.insert(file(p, s));
    }
    assert_eq!(paths(&top), vec!["d", "a", "c", "e", "b"]);
    assert_eq!(top.len(), 5);
    assert_eq!(top.floor(), 10);
}

#[test]
fn rank_is_behind_every_file_of_at_least_the_size() {
    let mut top = TopKSet::new(5, 0);
    top.insert(file("a", 30));
    top.insert(file("b", 20));
    top.insert(file("c", 20));
    match top.insert(file("d", 20)) {
        Placement::Ranked { rank, evicted } => {
            assert_eq!(rank, 3);
            assert!(evicted.is_none());
        }
        Placement::Discarded => panic!("the file exceeds the floor"),
    }
    match top.insert(file("e", 25)) {
        Placement::Ranked { rank, evicted } => {
            assert_eq!(rank, 1);
            assert!(evicted.is_none());
        }
        Placement::Discarded => panic!("the file exceeds the floor"),
    }
    assert_eq!(paths(&top), vec!["a", "e", "b", "c", "d"]);
}

#[test]
fn the_smallest_leaves_a_full_ranking() {
    let mut top = TopKSet::new(2, 0);
    top.insert(file("a", 30));
    top.insert(file("b", 10));
    assert_eq!(top.floor(), 10);
    match top.insert(file("c", 20)) {
        Placement::Ranked { rank, evicted } => {
            assert_eq!(rank, 1);
            assert_eq!(evicted.unwrap().path, "b");
        }
        Placement::Discarded => panic!("the file exceeds the floor"),
    }
    assert_eq!(paths(&top), vec!["a", "c"]);
    assert_eq!(top.floor(), 20);
    assert!(matches!(top.insert(file("d", 20)), Placement::Discarded));
    assert!(matches!(top.insert(file("e", 3)), Placement::Discarded));
    assert_eq!(paths(&top), vec!["a", "c"]);
    let files = top.into_entries();
    assert_eq!(files.len(), 2);
}

#[test]
fn many_files_keep_the_largest() {
    let mut top = TopKSet::new(10, 100);
    for i in 0..1000u64 {
        let size = (i * 7919) % 1009;
        top.insert(file(&format!("f{}", i), size));
    }
    let sizes: Vec<u64> = top.entries().iter().map(|f| f.size).collect();
    let mut all: Vec<u64> = (0..1000u64).map(|i| (i * 7919) % 1009).filter(|s| *s > 100).collect();
    all.sort();
    all.reverse();
    all.truncate(10);
    assert_eq!(sizes, all);
}

#[test]
fn files_compare_by_size() {
    let a = file("a", 3);
    let b = file("b", 3);
    let c = file("c", 4);
    assert!(a == b);
    assert!(a != c);
    assert_eq!(a.cmp(&b), Ordering::Equal);
    assert_eq!(a.cmp(&c), Ordering::Less);
    assert_eq!(c.cmp(&a), Ordering::Greater);
    let copy = c.clone();
    assert_eq!(copy.path, "c");
    assert_eq!(copy.size, 4);
}

#[test]
fn a_candidate_carries_what_the_file_system_said() {
    let f = Filesize::new(FileStat {
        path: "/tmp/x".to_string(),
        size: 42,
        modified: Some(1431648000),
        created: None,
        accessed: Some(0),
    });
    assert_eq!(f.path, "/tmp/x");
    assert_eq!(f.size, 42);
    assert_eq!(f.modified, "2015-05-15");
    assert_eq!(f.created, "-");
    assert_eq!(f.used, "1970-01-01");
}

#[test]
fn the_threshold_only_rises() {
    let mut t = SharedThreshold::new(10);
    assert_eq!(t.get(), 10);
    t.raise(5);
    assert_eq!(t.get(), 10);
    t.raise(25);
    assert_eq!(t.get(), 25);
    t.raise(25);
    assert_eq!(t.get(), 25);
    t.raise(24);
    assert_eq!(t.get(), 25);
    assert!(t.admits(25));
    assert!(t.admits(26));
    assert!(!t.admits(24));
}
