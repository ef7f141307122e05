use topfiles::aggregator::{Aggregator, StatusMsg, StatusUpdate};
use topfiles::candidate::FileStat;
use topfiles::counts::ScanResult;
use topfiles::walker::{
    classify, scan_dir, Boundary, EntryKind, Failure, Listing, Probe, Verdict,
};

fn totals_of(files: usize, directories: usize, errors: usize, denied: usize) -> ScanResult {
    ScanResult {
        file_count: files,
        directory_count: directories,
        error_count: errors,
        permission_denied_count: denied,
    }
}

fn found(kind: EntryKind, size: u64) -> Probe {
    Probe::Found { kind, size, device: 1 }
}

#[test]
fn verdicts() {
    let open = Boundary::Unrestricted;
    assert_eq!(classify(&found(EntryKind::File, 10), 10, 1, &open), Verdict::Forward);
    assert_eq!(classify(&found(EntryKind::File, 11), 10, 1, &open), Verdict::Forward);
    assert_eq!(classify(&found(EntryKind::File, 9), 10, 1, &open), Verdict::Count);
    assert_eq!(classify(&found(EntryKind::Symlink, 10), 10, 1, &open), Verdict::Forward);
    assert_eq!(classify(&found(EntryKind::Symlink, 9), 10, 1, &open), Verdict::Count);
    assert_eq!(classify(&found(EntryKind::Directory, 0), 10, 1, &open), Verdict::Descend);
    assert_eq!(classify(&Probe::Failed(Failure::PermissionDenied), 10, 1, &open), Verdict::Denied);
    assert_eq!(classify(&Probe::Failed(Failure::Other), 10, 1, &open), Verdict::Errored);
}

#[test]
fn device_boundary() {
    let fence = Boundary::Allowed(vec![7, 9]);
    let dir_on = |device: u64| Probe::Found { kind: EntryKind::Directory, size: 0, device };
    assert!(!fence.is_barred(1, 1));
    assert!(!fence.is_barred(1, 7));
    assert!(!fence.is_barred(1, 9));
    assert!(fence.is_barred(1, 8));
    assert!(!Boundary::Unrestricted.is_barred(1, 8));
    assert!(Boundary::Allowed(vec![]).is_barred(1, 2));
    assert_eq!(classify(&dir_on(1), 0, 1, &fence), Verdict::Descend);
    assert_eq!(classify(&dir_on(9), 0, 1, &fence), Verdict::Descend);
    assert_eq!(classify(&dir_on(8), 0, 1, &fence), Verdict::Skip);
    assert_eq!(classify(&dir_on(8), 0, 1, &Boundary::Unrestricted), Verdict::Descend);
    let file_elsewhere = Probe::Found { kind: EntryKind::File, size: 5, device: 8 };
    assert_eq!(classify(&file_elsewhere, 0, 1, &fence), Verdict::Forward);
}

#[test]
fn one_directory() {
    let listing = Listing::Entries(vec![
        found(EntryKind::File, 100),
        found(EntryKind::Directory, 0),
        found(EntryKind::File, 3),
        Probe::Failed(Failure::Other),
        found(EntryKind::Symlink, 40),
        Probe::Failed(Failure::PermissionDenied),
        Probe::Found { kind: EntryKind::Directory, size: 0, device: 2 },
        found(EntryKind::Directory, 0),
    ]);
    let report = scan_dir(&listing, 40, 1, &Boundary::Allowed(vec![]));
    assert_eq!(report.result, totals_of(3, 1, 1, 1));
    assert_eq!(report.forward, vec![0, 4]);
    assert_eq!(report.descend, vec![1, 7]);
    assert_eq!(report.skipped, vec![6]);
    let seen = report.result.file_count
        + report.result.error_count
        + report.result.permission_denied_count
        + report.descend.len()
        + report.skipped.len();
    assert_eq!(seen, 8);
}

#[test]
fn an_empty_directory_counts_as_one() {
    let report = scan_dir(&Listing::Entries(vec![]), 0, 1, &Boundary::Unrestricted);
    assert_eq!(report.result, totals_of(0, 1, 0, 0));
    assert!(report.forward.is_empty());
    assert!(report.descend.is_empty());
    assert!(report.skipped.is_empty());
}

#[test]
fn a_directory_that_cannot_be_read() {
    let unreadable = Listing::Unreadable(Failure::PermissionDenied);
    let denied = scan_dir(&unreadable, 0, 1, &Boundary::Unrestricted);
    assert_eq!(denied.result, totals_of(0, 1, 0, 1));
    assert!(denied.forward.is_empty() && denied.descend.is_empty() && denied.skipped.is_empty());
    let broken = scan_dir(&Listing::Unreadable(Failure::Other), 0, 1, &Boundary::Unrestricted);
    assert_eq!(broken.result, totals_of(0, 1, 1, 0));
}

/// A directory of a tree that exists only in the test.
struct Dir {
    listing: Listing,
    sizes: Vec<u64>,
    children: Vec<Dir>,
}

fn leaf(sizes: &[u64]) -> Dir {
    Dir {
        listing: Listing::Entries(sizes.iter().map(|s| found(EntryKind::File, *s)).collect()),
        sizes: sizes.to_vec(),
        children: vec![],
    }
}

fn walk(dir: &Dir, name: &str, agg: &mut Aggregator) {
    let report = scan_dir(&dir.listing, agg.floor(), 1, &Boundary::Unrestricted);
    for i in report.forward.iter() {
        let size = match &dir.listing {
            Listing::Entries(probes) => match probes[*i] {
                Probe::Found { size, .. } => size,
                Probe::Failed(_) => panic!("only what was found is forwarded"),
            },
            Listing::Unreadable(_) => panic!("nothing is forwarded from an unreadable directory"),
        };
        assert_eq!(size, dir.sizes[*i]);
        let update = StatusUpdate::from(FileStat {
            path: format!("{}/{}", name, i),
            size,
            modified: None,
            created: None,
            accessed: None,
        });
        agg.handle(update);
    }
    let mut next = 0;
    for i in report.descend.iter() {
        walk(&dir.children[next], &format!("{}/{}", name, i), agg);
        next += 1;
    }
    assert_eq!(next, dir.children.len());
    let update = StatusUpdate::Result(report.result);
    assert!(agg.can_handle(&update));
    agg.handle(update);
}

fn totals(agg: &Aggregator) -> ScanResult {
    match agg.status() {
        StatusMsg::Status(t) => *t,
        StatusMsg::Final(..) => panic!("the scan still runs"),
    }
}

fn ranked(agg: &Aggregator) -> Vec<(String, u64)> {
    agg.entries().iter().map(|f| (f.path.clone(), f.size)).collect()
}

#[test]
fn an_unreadable_directory_does_not_stop_the_scan() {
    let root = Dir {
        listing: Listing::Entries(vec![
            found(EntryKind::Directory, 0),
            found(EntryKind::Directory, 0),
            found(EntryKind::Directory, 0),
            found(EntryKind::File, 10),
        ]),
        sizes: vec![0, 0, 0, 10],
        children: vec![
            leaf(&[50, 5]),
            Dir {
                listing: Listing::Unreadable(Failure::PermissionDenied),
                sizes: vec![],
                children: vec![],
            },
            leaf(&[100, 20]),
        ],
    };
    let mut agg = Aggregator::new(3, 0, 1);
    walk(&root, "", &mut agg);
    assert_eq!(totals(&agg), totals_of(5, 4, 0, 1));
    assert_eq!(
        ranked(&agg),
        vec![("/2/0".to_string(), 100), ("/0/0".to_string(), 50), ("/2/1".to_string(), 20)]
    );
}

#[test]
fn a_link_to_a_directory_is_one_file() {
    let with_link = Dir {
        listing: Listing::Entries(vec![
            found(EntryKind::Directory, 0),
            found(EntryKind::Symlink, 4),
            found(EntryKind::File, 30),
        ]),
        sizes: vec![0, 4, 30],
        children: vec![leaf(&[70, 8])],
    };
    let without_link = Dir {
        listing: Listing::Entries(vec![found(EntryKind::Directory, 0), found(EntryKind::File, 30)]),
        sizes: vec![0, 30],
        children: vec![leaf(&[70, 8])],
    };
    let mut linked = Aggregator::new(2, 0, 1);
    walk(&with_link, "", &mut linked);
    let mut plain = Aggregator::new(2, 0, 1);
    walk(&without_link, "", &mut plain);
    assert_eq!(totals(&linked), totals_of(4, 2, 0, 0));
    assert_eq!(totals(&plain), totals_of(3, 2, 0, 0));
    let sizes = |agg: &Aggregator| -> Vec<u64> { agg.entries().iter().map(|f| f.size).collect() };
    assert_eq!(sizes(&linked), vec![70, 30]);
    assert_eq!(sizes(&plain), vec![70, 30]);
}

#[test]
fn a_stale_floor_changes_nothing() {
    let sizes = [10u64, 50, 5, 100, 20, 60, 1];
    let mut strict = Aggregator::new(3, 0, 1);
    let mut stale = Aggregator::new(3, 0, 1);
    for (i, size) in sizes.iter().enumerate() {
        let listing = Listing::Entries(vec![found(EntryKind::File, *size)]);
        let fresh = scan_dir(&listing, strict.floor(), 1, &Boundary::Unrestricted);
        for _ in fresh.forward.iter() {
            strict.handle(StatusUpdate::from(FileStat {
                path: format!("f{}", i),
                size: *size,
                modified: None,
                created: None,
                accessed: None,
            }));
        }
        let old = scan_dir(&listing, 0, 1, &Boundary::Unrestricted);
        assert_eq!(old.forward, vec![0]);
        stale.handle(StatusUpdate::from(FileStat {
            path: format!("f{}", i),
            size: *size,
            modified: None,
            created: None,
            accessed: None,
        }));
        assert_eq!(fresh.result, old.result);
    }
    assert_eq!(ranked(&strict), ranked(&stale));
    assert_eq!(
        ranked(&strict),
        vec![("f3".to_string(), 100), ("f5".to_string(), 60), ("f1".to_string(), 50)]
    );
}
