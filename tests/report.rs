use std::collections::HashMap;

use rayon::iter::{IntoParallelRefIterator, ParallelIterator};
use sysinfo_report::report::{aggregate, merge_all, FileInfo, Report};

fn fact(path: &str, size: u64, file_type: &str, owner: u32) -> FileInfo {
    FileInfo { path: path.to_string(), size, file_type: file_type.to_string(), owner }
}

fn synthetic(i: usize) -> Option<FileInfo> {
    if i % 97 == 0 {
        return None;
    }
    let types = ["txt", "rs", "unknown", "json", "gz"];
    Some(fact(&format!("/data/f{}", i), (i as u64 * 37) % 5000, types[i % 5], (i % 7) as u32))
}

fn type_map(r: &Report) -> HashMap<String, u64> {
    let mut m = HashMap::new();
    for (k, v) in &r.file_types {
        assert!(m.insert(k.clone(), *v).is_none());
    }
    m
}

fn owner_map(r: &Report) -> HashMap<u32, u64> {
    let mut m = HashMap::new();
    for (k, v) in &r.ownership {
        assert!(m.insert(*k, *v).is_none());
    }
    m
}

fn sample() -> Vec<Option<FileInfo>> {
    vec![
        Some(fact("/r/a.txt", 10, "txt", 1)),
        None,
        Some(fact("/r/b.txt", 20, "txt", 2)),
        Some(fact("/r/c", 5, "unknown", 1)),
    ]
}

#[test]
fn empty_scan_gives_empty_report() {
    let r = aggregate(Vec::new()).unwrap();
    assert_eq!(r.total_size, 0);
    assert!(r.file_types.is_empty());
    assert!(r.ownership.is_empty());
    assert!(r.files.is_empty());
    let n = Report::new();
    assert_eq!(n.total_size, 0);
    assert!(n.files.is_empty());
}

#[test]
fn aggregate_counts_and_drops() {
    let r = aggregate(sample()).unwrap();
    assert_eq!(r.total_size, 35);
    assert_eq!(r.files.len(), 3);
    assert_eq!(r.files[0].path, "/r/a.txt");
    assert_eq!(r.files[2].path, "/r/c");
    let t = type_map(&r);
    assert_eq!(t.len(), 2);
    assert_eq!(t["txt"], 2);
    assert_eq!(t["unknown"], 1);
    let o = owner_map(&r);
    assert_eq!(o.len(), 2);
    assert_eq!(o[&1], 2);
    assert_eq!(o[&2], 1);
}

#[test]
fn totals_match_files() {
    let r = aggregate((0..500).map(synthetic).collect()).unwrap();
    let sum: u64 = r.files.iter().map(|f| f.size).sum();
    assert_eq!(r.total_size, sum);
    let types: u64 = r.file_types.iter().map(|e| e.1).sum();
    let owners: u64 = r.ownership.iter().map(|e| e.1).sum();
    assert_eq!(types, r.files.len() as u64);
    assert_eq!(owners, r.files.len() as u64);
}

#[test]
fn aggregate_overflow_gives_none() {
    let v = vec![Some(fact("/a", u64::MAX, "x", 0)), Some(fact("/b", 1, "x", 0))];
    assert!(aggregate(v).is_none());
    let w = vec![Some(fact("/a", u64::MAX, "x", 0)), None];
    assert_eq!(aggregate(w).unwrap().total_size, u64::MAX);
}

#[test]
fn merge_adds_and_joins() {
    let a = aggregate(sample()).unwrap();
    let b = aggregate(vec![Some(fact("/s/d.rs", 7, "rs", 2)), Some(fact("/s/e.txt", 1, "txt", 3))])
        .unwrap();
    let m = a.merge(b).unwrap();
    assert_eq!(m.total_size, 43);
    assert_eq!(m.files.len(), 5);
    assert_eq!(m.files[3].path, "/s/d.rs");
    let t = type_map(&m);
    assert_eq!(t.len(), 3);
    assert_eq!(t["txt"], 3);
    assert_eq!(t["rs"], 1);
    assert_eq!(t["unknown"], 1);
    let o = owner_map(&m);
    assert_eq!(o.len(), 3);
    assert_eq!(o[&1], 2);
    assert_eq!(o[&2], 2);
    assert_eq!(o[&3], 1);
}

#[test]
fn merge_overflow_gives_none() {
    let a = aggregate(vec![Some(fact("/a", u64::MAX - 1, "x", 0))]).unwrap();
    let b = aggregate(vec![Some(fact("/b", 2, "x", 0))]).unwrap();
    assert!(a.merge(b).is_none());
}

#[test]
fn merge_all_of_nothing_is_empty() {
    let r = merge_all(Vec::new()).unwrap();
    assert_eq!(r.total_size, 0);
    assert!(r.files.is_empty());
}

#[test]
fn merge_all_overflow_gives_none() {
    let a = aggregate(vec![Some(fact("/a", u64::MAX, "x", 0))]).unwrap();
    let b = aggregate(vec![Some(fact("/b", 1, "y", 0))]).unwrap();
    assert!(merge_all(vec![a, b]).is_none());
}

#[test]
fn rescan_in_other_order_agrees() {
    let forward = aggregate((0..300).map(synthetic).collect()).unwrap();
    let backward = aggregate((0..300).rev().map(synthetic).collect()).unwrap();
    assert_eq!(forward.total_size, backward.total_size);
    assert_eq!(type_map(&forward), type_map(&backward));
    assert_eq!(owner_map(&forward), owner_map(&backward));
    let mut p1: Vec<String> = forward.files.iter().map(|f| f.path.clone()).collect();
    let mut p2: Vec<String> = backward.files.iter().map(|f| f.path.clone()).collect();
    p1.sort();
    p2.sort();
    assert_eq!(p1, p2);
}

fn scan_with_workers(n_entries: usize, workers: usize) -> Report {
    let pool = rayon::ThreadPoolBuilder::new().num_threads(workers).build().unwrap();
    let chunk = (n_entries + workers - 1) / workers;
    let starts: Vec<usize> = (0..workers).map(|w| w * chunk).collect();
    let parts: Vec<Report> = pool.install(|| {
        starts
            .par_iter()
            .map(|&s| {
                let end = usize::min(s + chunk, n_entries);
                aggregate((s..end.max(s)).map(synthetic).collect()).unwrap()
            })
            .collect()
    });
    merge_all(parts).unwrap()
}

#[test]
fn worker_count_does_not_change_report() {
    let one = scan_with_workers(10_000, 1);
    let two = scan_with_workers(10_000, 2);
    let eight = scan_with_workers(10_000, 8);
    assert_eq!(one.files.len(), 10_000 - 104);
    for r in [&two, &eight] {
        assert_eq!(r.total_size, one.total_size);
        assert_eq!(type_map(r), type_map(&one));
        assert_eq!(owner_map(r), owner_map(&one));
        assert_eq!(r.files.len(), one.files.len());
    }
}

#[test]
fn merge_order_does_not_change_counts() {
    let make_a = || aggregate((0..40).map(synthetic).collect()).unwrap();
    let make_b = || aggregate((40..90).map(synthetic).collect()).unwrap();
    let ab = make_a().merge(make_b()).unwrap();
    let ba = make_b().merge(make_a()).unwrap();
    assert_eq!(ab.total_size, ba.total_size);
    assert_eq!(type_map(&ab), type_map(&ba));
    assert_eq!(owner_map(&ab), owner_map(&ba));
    let single = aggregate((0..90).map(synthetic).collect()).unwrap();
    assert_eq!(single.total_size, ab.total_size);
    assert_eq!(type_map(&single), type_map(&ab));
    assert_eq!(owner_map(&single), owner_map(&ab));
}
