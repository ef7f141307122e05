use topfiles::aggregator::{Aggregator, Reaction, StatusMsg, StatusUpdate};
use topfiles::candidate::Filesize;
use topfiles::counts::ScanResult;

fn totals_of(files: usize, directories: usize, errors: usize, denied: usize) -> ScanResult {
    ScanResult {
        file_count: files,
        directory_count: directories,
        error_count: errors,
        permission_denied_count: denied,
    }
}

fn file(path: &str, size: u64) -> Filesize {
    Filesize {
        path: path.to_string(),
        size,
        modified: "-".to_string(),
        created: "-".to_string(),
        used: "-".to_string(),
    }
}

fn offer_all(agg: &mut Aggregator, files: &[(&str, u64)]) -> Vec<u64> {
    let mut floors = Vec::new();
    for (path, size) in files {
        let update = StatusUpdate::File(file(path, *size));
        assert!(agg.can_handle(&update));
        agg.handle(update);
        floors.push(agg.floor());
    }
    floors
}

fn ranked(agg: &Aggregator) -> Vec<(String, u64)> {
    agg.entries().iter().map(|f| (f.path.clone(), f.size)).collect()
}

fn run(sizes: &[u64], limit: usize, min_size: u64) -> Vec<(String, u64)> {
    let mut agg = Aggregator::new(limit, min_size, 1);
    let names: Vec<String> = (0..sizes.len()).map(|i| format!("f{}", i)).collect();
    let files: Vec<(&str, u64)> =
        names.iter().map(|n| n.as_str()).zip(sizes.iter().copied()).collect();
    offer_all(&mut agg, &files);
    ranked(&agg)
}

fn ranked_sizes(sizes: &[u64], limit: usize, min_size: u64) -> Vec<u64> {
    run(sizes, limit, min_size).into_iter().map(|(_, s)| s).collect()
}

#[test]
fn three_largest_of_five() {
    assert_eq!(ranked_sizes(&[10, 50, 5, 100, 20], 3, 0), vec![100, 50, 20]);
}

#[test]
fn minimum_size_leaves_one() {
    assert_eq!(ranked_sizes(&[10, 50, 5, 100, 20], 3, 60), vec![100]);
}

#[test]
fn nothing_offered_nothing_ranked() {
    let agg = Aggregator::new(3, 0, 1);
    assert!(agg.entries().is_empty());
    assert_eq!(agg.floor(), 0);
}

#[test]
fn equal_sizes_keep_arrival_order() {
    let got = run(&[7, 9, 7, 7, 9], 4, 0);
    let want: Vec<(String, u64)> = vec![
        ("f1".to_string(), 9),
        ("f4".to_string(), 9),
        ("f0".to_string(), 7),
        ("f2".to_string(), 7),
    ];
    assert_eq!(got, want);
}

#[test]
fn a_file_as_large_as_the_smallest_ranked_stays_out() {
    let got = run(&[5, 8, 5], 2, 0);
    assert_eq!(got, vec![("f1".to_string(), 8), ("f0".to_string(), 5)]);
}

#[test]
fn a_file_of_exactly_the_minimum_size_is_not_ranked() {
    assert_eq!(ranked_sizes(&[60, 61, 0], 3, 60), vec![61]);
    assert_eq!(ranked_sizes(&[0, 1], 3, 0), vec![1]);
}

#[test]
fn length_is_the_limit_or_the_number_of_larger_files() {
    let sizes = [3, 9, 4, 1, 7, 2, 8];
    for limit in 1..10usize {
        for min_size in 0..10u64 {
            let larger = sizes.iter().filter(|s| **s > min_size).count();
            let got = ranked_sizes(&sizes, limit, min_size);
            assert_eq!(got.len(), limit.min(larger));
            let mut want: Vec<u64> = sizes.iter().copied().filter(|s| *s > min_size).collect();
            want.sort();
            want.reverse();
            want.truncate(limit);
            assert_eq!(got, want);
        }
    }
}

#[test]
fn what_is_left_out_is_no_larger_than_the_smallest_ranked() {
    let sizes = [12, 40, 7, 40, 3, 25, 25, 1];
    let got = run(&sizes, 4, 2);
    let smallest = got.last().unwrap().1;
    for (i, size) in sizes.iter().enumerate() {
        let name = format!("f{}", i);
        if !got.iter().any(|(p, _)| *p == name) {
            assert!(*size <= smallest);
        }
    }
    assert_eq!(
        got,
        vec![
            ("f1".to_string(), 40),
            ("f3".to_string(), 40),
            ("f5".to_string(), 25),
            ("f6".to_string(), 25),
        ]
    );
}

#[test]
fn same_files_in_another_order_give_the_same_ranking() {
    let a = [("a", 10u64), ("b", 50), ("c", 5), ("d", 100), ("e", 20)];
    let b = [("e", 20u64), ("d", 100), ("c", 5), ("b", 50), ("a", 10)];
    let mut first = Aggregator::new(3, 0, 1);
    let mut second = Aggregator::new(3, 0, 1);
    offer_all(&mut first, &a);
    offer_all(&mut second, &b);
    assert_eq!(ranked(&first), ranked(&second));
    assert_eq!(
        ranked(&first),
        vec![("d".to_string(), 100), ("b".to_string(), 50), ("e".to_string(), 20)]
    );
}

#[test]
fn scanning_twice_gives_the_same_ranking() {
    let sizes = [10, 50, 5, 100, 20];
    assert_eq!(run(&sizes, 3, 0), run(&sizes, 3, 0));
}

#[test]
fn a_tie_at_the_cut_goes_to_the_first_to_arrive() {
    let mut first = Aggregator::new(1, 0, 1);
    let mut second = Aggregator::new(1, 0, 1);
    offer_all(&mut first, &[("a", 10), ("b", 10)]);
    offer_all(&mut second, &[("b", 10), ("a", 10)]);
    assert_eq!(ranked(&first), vec![("a".to_string(), 10)]);
    assert_eq!(ranked(&second), vec![("b".to_string(), 10)]);
}

#[test]
fn the_floor_never_falls() {
    let mut agg = Aggregator::new(3, 4, 1);
    let floors = offer_all(
        &mut agg,
        &[("a", 10), ("b", 50), ("c", 5), ("d", 100), ("e", 20), ("f", 1), ("g", 60)],
    );
    assert_eq!(floors, vec![4, 4, 5, 10, 20, 20, 50]);
    for pair in floors.windows(2) {
        assert!(pair[0] <= pair[1]);
    }
}

#[test]
fn reactions_say_what_happened() {
    let mut agg = Aggregator::new(2, 5, 1);
    match agg.handle(StatusUpdate::File(file("a", 5))) {
        Reaction::Discarded => {}
        _ => panic!("a file of the minimum size is dropped"),
    }
    match agg.handle(StatusUpdate::File(file("b", 9))) {
        Reaction::Ranked { rank, evicted, threshold } => {
            assert_eq!(rank, 0);
            assert!(evicted.is_none());
            assert_eq!(threshold, 5);
        }
        _ => panic!("the first large file is ranked"),
    }
    match agg.handle(StatusUpdate::File(file("c", 7))) {
        Reaction::Ranked { rank, evicted, threshold } => {
            assert_eq!(rank, 1);
            assert!(evicted.is_none());
            assert_eq!(threshold, 7);
        }
        _ => panic!("the second large file is ranked"),
    }
    match agg.handle(StatusUpdate::File(file("d", 8))) {
        Reaction::Ranked { rank, evicted, threshold } => {
            assert_eq!(rank, 1);
            let gone = evicted.unwrap();
            assert_eq!(gone.path, "c");
            assert_eq!(gone.size, 7);
            assert_eq!(threshold, 8);
        }
        _ => panic!("a larger file takes a place"),
    }
    match agg.handle(StatusUpdate::File(file("e", 8))) {
        Reaction::Discarded => {}
        _ => panic!("a file as large as the floor is dropped"),
    }
    assert_eq!(ranked(&agg), vec![("b".to_string(), 9), ("d".to_string(), 8)]);
}

#[test]
fn totals_are_summed() {
    let mut agg = Aggregator::new(2, 0, 1);
    let a = totals_of(3, 1, 0, 1);
    let b = totals_of(4, 1, 2, 0);
    assert!(matches!(agg.handle(StatusUpdate::Result(a)), Reaction::Merged { refresh: true }));
    agg.handle(StatusUpdate::Result(b));
    match agg.status() {
        StatusMsg::Status(t) => {
            assert_eq!(*t, totals_of(7, 2, 2, 1));
        }
        StatusMsg::Final(..) => panic!("the scan still runs"),
    }
}

#[test]
fn totals_do_not_depend_on_the_order_of_reports() {
    let parts = [
        totals_of(3, 1, 0, 1),
        totals_of(0, 1, 5, 0),
        totals_of(9, 1, 1, 2),
    ];
    let mut forward = Aggregator::new(1, 0, 1);
    let mut backward = Aggregator::new(1, 0, 1);
    for p in parts.iter() {
        forward.handle(StatusUpdate::Result(*p));
    }
    forward.handle(StatusUpdate::File(file("x", 1)));
    for p in parts.iter().rev() {
        backward.handle(StatusUpdate::File(file("y", 2)));
        backward.handle(StatusUpdate::Result(*p));
    }
    let want = totals_of(12, 3, 6, 3);
    match (forward.status(), backward.status()) {
        (StatusMsg::Status(f), StatusMsg::Status(b)) => {
            assert_eq!(*f, want);
            assert_eq!(*b, want);
        }
        _ => panic!("both scans still run"),
    }
}

#[test]
fn a_snapshot_is_due_at_the_cadence() {
    let one = totals_of(1, 1, 0, 0);
    let mut agg = Aggregator::new(1, 0, 3);
    let mut due = Vec::new();
    for _ in 0..7 {
        match agg.handle(StatusUpdate::Result(one)) {
            Reaction::Merged { refresh } => due.push(refresh),
            _ => panic!("totals are merged"),
        }
    }
    assert_eq!(due, vec![false, false, true, false, false, true, false]);
    let mut every = Aggregator::new(1, 0, 0);
    assert!(matches!(every.handle(StatusUpdate::Result(one)), Reaction::Merged { refresh: true }));
    assert!(matches!(every.handle(StatusUpdate::Result(one)), Reaction::Merged { refresh: true }));
}

#[test]
fn totals_that_do_not_fit_are_told_apart() {
    let mut agg = Aggregator::new(1, 0, 1);
    let big = totals_of(usize::MAX, 0, 0, 0);
    let one = totals_of(1, 0, 0, 0);
    assert!(agg.can_handle(&StatusUpdate::Result(big)));
    agg.handle(StatusUpdate::Result(big));
    assert!(!agg.can_handle(&StatusUpdate::Result(one)));
    assert!(agg.can_handle(&StatusUpdate::File(file("a", 1))));
}

#[test]
fn the_end_hands_out_ranking_and_totals() {
    let mut agg = Aggregator::new(2, 0, 1);
    offer_all(&mut agg, &[("a", 1), ("b", 3), ("c", 2)]);
    let part = totals_of(3, 1, 0, 0);
    agg.handle(StatusUpdate::Result(part));
    let elapsed = std::time::Duration::from_millis(1500);
    let (files, msg) = agg.finish(elapsed);
    let got: Vec<(String, u64)> = files.iter().map(|f| (f.path.clone(), f.size)).collect();
    assert_eq!(got, vec![("b".to_string(), 3), ("c".to_string(), 2)]);
    match msg {
        StatusMsg::Final(totals, time) => {
            assert_eq!(totals, part);
            assert_eq!(time, elapsed);
        }
        StatusMsg::Status(_) => panic!("the scan has ended"),
    }
}
