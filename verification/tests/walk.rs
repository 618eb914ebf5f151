use filelist::walk::regular_files;
use filelist::{Parallelism, WalkDirOptions, WalkEntry};
use std::path::PathBuf;

fn entry(path: &str, is_file: bool) -> WalkEntry {
    WalkEntry { path: path.as_bytes().to_vec(), is_file }
}

#[test]
fn default_options() {
    let opts = WalkDirOptions::default();
    assert!(!opts.sort);
    assert_eq!(opts.min_depth, 0);
    assert_eq!(opts.max_depth, usize::MAX);
    assert!(opts.skip_hidden);
    assert!(!opts.follow_links);
    assert_eq!(opts.parallelism, Parallelism::RayonDefaultPool);
}

#[test]
fn each_setter_changes_its_own_option() {
    let base = WalkDirOptions::default();
    assert_eq!(base.sort(true), WalkDirOptions { sort: true, ..base });
    assert_eq!(base.min_depth(3), WalkDirOptions { min_depth: 3, ..base });
    assert_eq!(base.max_depth(7), WalkDirOptions { max_depth: 7, ..base });
    assert_eq!(base.skip_hidden(false), WalkDirOptions { skip_hidden: false, ..base });
    assert_eq!(base.follow_links(true), WalkDirOptions { follow_links: true, ..base });
    assert_eq!(
        base.parallelism(Parallelism::RayonNewPool(4)),
        WalkDirOptions { parallelism: Parallelism::RayonNewPool(4), ..base }
    );
    assert_eq!(
        base.parallelism(Parallelism::Serial),
        WalkDirOptions { parallelism: Parallelism::Serial, ..base }
    );
}

#[test]
fn setters_chain() {
    let opts = WalkDirOptions::default().sort(true).min_depth(1).max_depth(2).skip_hidden(false);
    assert!(opts.sort);
    assert_eq!(opts.min_depth, 1);
    assert_eq!(opts.max_depth, 2);
    assert!(!opts.skip_hidden);
    assert!(!opts.follow_links);
}

#[test]
fn depth_bounds_are_not_validated() {
    let opts = WalkDirOptions::default().min_depth(5).max_depth(1);
    assert_eq!(opts.min_depth, 5);
    assert_eq!(opts.max_depth, 1);
}

#[test]
fn only_regular_files_are_kept_in_walk_order() {
    let entries = vec![
        entry("d", false),
        entry("d/b", true),
        entry("d/sub", false),
        entry("d/sub/x", true),
        entry("d/a", true),
        entry("d/link", false),
    ];
    assert_eq!(
        regular_files(entries),
        vec![b"d/b".to_vec(), b"d/sub/x".to_vec(), b"d/a".to_vec()]
    );
    assert_eq!(regular_files(Vec::new()), Vec::<Vec<u8>>::new());
    assert_eq!(regular_files(vec![entry("d", false)]), Vec::<Vec<u8>>::new());
}

#[test]
fn a_built_walker_yields_its_root_at_depth_zero() {
    let walk = WalkDirOptions::default()
        .max_depth(0)
        .parallelism(Parallelism::Serial)
        .build(PathBuf::from("."));
    let mut seen = Vec::new();
    for entry in walk.dir {
        let entry = entry.unwrap();
        seen.push((entry.path(), entry.depth(), entry.file_type().is_dir()));
    }
    assert_eq!(seen, vec![(PathBuf::from("."), 0, true)]);
}

#[test]
fn a_built_walker_honours_the_least_depth() {
    let walk = WalkDirOptions::default()
        .min_depth(1)
        .max_depth(1)
        .parallelism(Parallelism::Serial)
        .build(PathBuf::from("."));
    for entry in walk.dir.into_iter().flatten() {
        assert_eq!(entry.depth(), 1);
    }
}

#[test]
fn a_built_walker_of_a_missing_root_yields_an_error() {
    let walk = WalkDirOptions::default()
        .parallelism(Parallelism::Serial)
        .build(PathBuf::from("/no/such/root/anywhere"));
    let results: Vec<bool> = walk.dir.into_iter().map(|entry| entry.is_err()).collect();
    assert_eq!(results, vec![true]);
}
