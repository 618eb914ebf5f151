use filelist::argument::{batch, classify, reads_stdin};
use filelist::expansion::{Action, Event, ExpandError, Expansion};
use filelist::{expand_arguments, expand_osstr, Argument, Split, WalkDirOptions, WalkEntry};

/// A file system for the tests: its regular files, and what a walk of each
/// of its trees reports. A walk of anything else fails.
struct Disk {
    files: Vec<&'static str>,
    trees: Vec<(&'static str, Vec<WalkEntry>)>,
}

fn entry(path: &str, is_file: bool) -> WalkEntry {
    WalkEntry { path: path.as_bytes().to_vec(), is_file }
}

fn bytes(names: &[&str]) -> Vec<Vec<u8>> {
    names.iter().map(|name| name.as_bytes().to_vec()).collect()
}

/// Answers every action from `disk` until the expansion comes to rest, and
/// counts the probes and walks on the way.
fn drive(mut run: Expansion, disk: &Disk) -> (Result<Vec<Vec<u8>>, ExpandError>, usize, usize) {
    let mut probes = 0;
    let mut walks = 0;
    loop {
        let event = match run.action() {
            Action::Probe(path) => {
                probes += 1;
                Event::Probed(disk.files.iter().any(|file| file.as_bytes() == path.as_slice()))
            }
            Action::Walk(path, _) => {
                walks += 1;
                match disk.trees.iter().find(|(root, _)| root.as_bytes() == path.as_slice()) {
                    Some((_, entries)) => Event::Walked(entries.clone()),
                    None => Event::WalkFailed,
                }
            }
            Action::Finish | Action::Abort => return (run.finish(), probes, walks),
        };
        assert!(run.feed(event));
    }
}

fn flat_disk() -> Disk {
    Disk { files: vec!["a.txt", "b.txt", "c.txt", "d.txt"], trees: Vec::new() }
}

fn tree_disk() -> Disk {
    Disk {
        files: vec!["top.txt"],
        trees: vec![
            ("dir", vec![entry("dir", false), entry("dir/a", true), entry("dir/b", true)]),
            ("other", vec![entry("other", false), entry("other/z", true)]),
            ("empty", vec![entry("empty", false)]),
        ],
    }
}

#[test]
fn stdin_expands_in_place() {
    let tokens = bytes(&["a.txt", "-", "b.txt"]);
    let stdin = b"c.txt\nd.txt\n".to_vec();
    let run = expand_osstr(tokens, Split::Newline, None, stdin);
    let (files, probes, walks) = drive(run, &flat_disk());
    assert_eq!(files, Ok(bytes(&["a.txt", "c.txt", "d.txt", "b.txt"])));
    assert_eq!(probes, 4);
    assert_eq!(walks, 0);
}

#[test]
fn only_the_first_sentinel_reads_stdin() {
    let tokens = bytes(&["-", "a.txt", "-", "b.txt", "-"]);
    let stdin = b"c.txt\n".to_vec();
    let run = expand_osstr(tokens, Split::Newline, None, stdin);
    let (files, _, _) = drive(run, &flat_disk());
    assert_eq!(files, Ok(bytes(&["c.txt", "a.txt", "b.txt"])));
}

#[test]
fn classification_keeps_the_order_of_the_tokens() {
    let args = classify(bytes(&["a.txt", "-", "b.txt", "-"]), b"x\ny".to_vec());
    assert_eq!(
        args,
        vec![
            Argument::Path(b"a.txt".to_vec()),
            Argument::Reader(b"x\ny".to_vec()),
            Argument::Path(b"b.txt".to_vec()),
        ]
    );
}

#[test]
fn tokens_without_sentinel_leave_stdin_alone() {
    let tokens = bytes(&["a.txt", "--", "-x", ""]);
    assert!(!reads_stdin(&tokens));
    let args = classify(tokens, b"never used".to_vec());
    assert_eq!(
        args,
        vec![
            Argument::Path(b"a.txt".to_vec()),
            Argument::Path(b"--".to_vec()),
            Argument::Path(b"-x".to_vec()),
            Argument::Path(Vec::new()),
        ]
    );
}

#[test]
fn the_sentinel_is_exactly_one_dash() {
    assert!(reads_stdin(&bytes(&["a", "-"])));
    assert!(reads_stdin(&bytes(&["-"])));
    assert!(!reads_stdin(&bytes(&["--", "- ", "a-"])));
    assert!(!reads_stdin(&Vec::new()));
}

#[test]
fn a_missing_path_is_skipped_without_walk_options() {
    let run = Argument::Path(b"missing.txt".to_vec()).expand(b'\n', &None);
    let (files, probes, walks) = drive(run, &flat_disk());
    assert_eq!(files, Ok(Vec::new()));
    assert_eq!((probes, walks), (1, 0));
}

#[test]
fn a_directory_is_skipped_without_walk_options() {
    let run = Argument::Path(b"dir".to_vec()).expand(b'\n', &None);
    let (files, probes, walks) = drive(run, &tree_disk());
    assert_eq!(files, Ok(Vec::new()));
    assert_eq!((probes, walks), (1, 0));
}

#[test]
fn a_regular_file_is_never_walked() {
    let opts = Some(WalkDirOptions::default());
    let run = Argument::Path(b"top.txt".to_vec()).expand(b'\n', &opts);
    let (files, probes, walks) = drive(run, &tree_disk());
    assert_eq!(files, Ok(bytes(&["top.txt"])));
    assert_eq!((probes, walks), (1, 0));
}

#[test]
fn a_sorted_walk_yields_its_files_in_walk_order() {
    // What a sorted walk that skips hidden entries reports of a directory
    // with the files `b`, `a` and `.c`.
    let opts = Some(WalkDirOptions::default().sort(true));
    let run = Argument::Path(b"dir".to_vec()).expand(b'\n', &opts);
    let (files, probes, walks) = drive(run, &tree_disk());
    assert_eq!(files, Ok(bytes(&["dir/a", "dir/b"])));
    assert_eq!((probes, walks), (1, 1));
}

#[test]
fn an_unsorted_walk_yields_the_same_set() {
    let sorted = vec![entry("dir", false), entry("dir/a", true), entry("dir/b", true)];
    let unsorted = vec![entry("dir/b", true), entry("dir", false), entry("dir/a", true)];
    let mut found = Vec::new();
    for entries in [sorted, unsorted] {
        let disk = Disk { files: Vec::new(), trees: vec![("dir", entries)] };
        let opts = Some(WalkDirOptions::default());
        let run = Argument::Path(b"dir".to_vec()).expand(b'\n', &opts);
        let mut files = drive(run, &disk).0.unwrap();
        files.sort();
        found.push(files);
    }
    assert_eq!(found[0], found[1]);
    assert_eq!(found[0], bytes(&["dir/a", "dir/b"]));
}

#[test]
fn the_walk_gets_the_options_of_the_expansion() {
    let opts = WalkDirOptions::default().sort(true).max_depth(3);
    let mut run = Argument::Path(b"dir".to_vec()).expand(b'\n', &Some(opts));
    assert_eq!(run.action(), Action::Probe(b"dir".to_vec()));
    assert!(run.feed(Event::Probed(false)));
    assert_eq!(run.action(), Action::Walk(b"dir".to_vec(), opts));
}

#[test]
fn a_stream_may_name_directories() {
    let opts = Some(WalkDirOptions::default().sort(true));
    let list = Argument::Reader(b"dir\0top.txt\0other\0".to_vec());
    let (files, probes, walks) = drive(list.expand(0, &opts), &tree_disk());
    assert_eq!(files, Ok(bytes(&["dir/a", "dir/b", "top.txt", "other/z"])));
    assert_eq!((probes, walks), (3, 2));
}

#[test]
fn arguments_expand_in_their_order() {
    let args = vec![
        Argument::Path(b"b.txt".to_vec()),
        Argument::Reader(b"d.txt\tmissing\tc.txt".to_vec()),
        Argument::Path(b"a.txt".to_vec()),
        Argument::Path(b"b.txt".to_vec()),
    ];
    let (files, _, _) = drive(expand_arguments(args, b'\t', None), &flat_disk());
    assert_eq!(files, Ok(bytes(&["b.txt", "d.txt", "c.txt", "a.txt", "b.txt"])));
}

#[test]
fn no_arguments_expand_to_nothing() {
    let mut run = expand_arguments(Vec::new(), Split::Newline, None);
    assert_eq!(run.action(), Action::Finish);
    assert!(!run.feed(Event::Probed(true)));
    assert_eq!(run.finish(), Ok(Vec::new()));
}

#[test]
fn an_empty_fragment_is_an_empty_path() {
    let (files, probes, _) =
        drive(Argument::Reader(b"a.txt\n\nb.txt".to_vec()).expand(b'\n', &None), &flat_disk());
    assert_eq!(files, Ok(bytes(&["a.txt", "b.txt"])));
    assert_eq!(probes, 3);
}

#[test]
fn a_failed_walk_is_fatal() {
    let opts = Some(WalkDirOptions::default());
    let args = vec![
        Argument::Path(b"top.txt".to_vec()),
        Argument::Path(b"missing".to_vec()),
        Argument::Path(b"dir".to_vec()),
    ];
    let (files, probes, walks) = drive(expand_arguments(args, Split::Newline, opts), &tree_disk());
    assert_eq!(files, Err(ExpandError::WalkFailed));
    assert_eq!((probes, walks), (2, 1));
}

#[test]
fn after_a_failed_walk_nothing_is_accepted() {
    let opts = Some(WalkDirOptions::default());
    let mut run = Argument::Path(b"dir".to_vec()).expand(b'\n', &opts);
    assert!(run.feed(Event::Probed(false)));
    assert!(run.feed(Event::WalkFailed));
    assert_eq!(run.action(), Action::Abort);
    assert!(!run.feed(Event::Probed(true)));
    assert!(!run.feed(Event::Walked(Vec::new())));
    assert_eq!(run.action(), Action::Abort);
    assert_eq!(run.finish(), Err(ExpandError::WalkFailed));
}

#[test]
fn an_expansion_that_still_waits_has_no_result() {
    let run = Argument::Path(b"a.txt".to_vec()).expand(b'\n', &None);
    assert_eq!(run.finish(), Err(ExpandError::Unfinished));
    let opts = Some(WalkDirOptions::default());
    let mut run = Argument::Path(b"dir".to_vec()).expand(b'\n', &opts);
    assert!(run.feed(Event::Probed(false)));
    assert_eq!(run.finish(), Err(ExpandError::Unfinished));
}

#[test]
fn an_event_that_answers_nothing_is_dropped() {
    let opts = Some(WalkDirOptions::default());
    let mut run = Expansion::new(bytes(&["dir", "top.txt"]), opts);
    assert!(!run.feed(Event::Walked(vec![entry("x", true)])));
    assert!(!run.feed(Event::WalkFailed));
    assert_eq!(run.action(), Action::Probe(b"dir".to_vec()));
    assert!(run.feed(Event::Probed(false)));
    assert!(!run.feed(Event::Probed(true)));
    assert_eq!(run.action(), Action::Walk(b"dir".to_vec(), WalkDirOptions::default()));
    assert!(run.feed(Event::Walked(vec![entry("dir/a", true)])));
    assert_eq!(run.action(), Action::Probe(b"top.txt".to_vec()));
    assert!(run.feed(Event::Probed(true)));
    assert_eq!(run.action(), Action::Finish);
    assert_eq!(run.finish(), Ok(bytes(&["dir/a", "top.txt"])));
}

#[test]
fn output_is_not_deduplicated() {
    let tokens = bytes(&["a.txt", "a.txt", "-"]);
    let run = expand_osstr(tokens, b'\n', None, b"a.txt\n".to_vec());
    assert_eq!(drive(run, &flat_disk()).0, Ok(bytes(&["a.txt", "a.txt", "a.txt"])));
}

#[test]
fn the_delimiter_splits_stdin() {
    let tokens = bytes(&["-"]);
    let run = expand_osstr(tokens, Split::Other(b','), None, b"a.txt,b.txt\nc.txt,d.txt".to_vec());
    assert_eq!(drive(run, &flat_disk()).0, Ok(bytes(&["a.txt", "d.txt"])));
}

#[test]
fn list_files_come_before_the_tokens() {
    let lists = vec![b"d.txt\nmissing\n".to_vec(), Vec::new(), b"c.txt".to_vec()];
    let tokens = bytes(&["b.txt", "-", "a.txt"]);
    let args = batch(lists, tokens, b"a.txt\n".to_vec());
    assert_eq!(
        args,
        vec![
            Argument::Reader(b"d.txt\nmissing\n".to_vec()),
            Argument::Reader(Vec::new()),
            Argument::Reader(b"c.txt".to_vec()),
            Argument::Path(b"b.txt".to_vec()),
            Argument::Reader(b"a.txt\n".to_vec()),
            Argument::Path(b"a.txt".to_vec()),
        ]
    );
    let (files, probes, _) = drive(expand_arguments(args, Split::Newline, None), &flat_disk());
    assert_eq!(files, Ok(bytes(&["d.txt", "c.txt", "b.txt", "a.txt", "a.txt"])));
    assert_eq!(probes, 6);
}

#[test]
fn a_batch_without_list_files_is_the_tokens() {
    let args = batch(Vec::new(), bytes(&["x", "-"]), b"y".to_vec());
    assert_eq!(args, vec![Argument::Path(b"x".to_vec()), Argument::Reader(b"y".to_vec())]);
}
