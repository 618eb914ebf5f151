use filelist::stream::split_stream;

fn runs(data: &[u8], delim: u8) -> Vec<Vec<u8>> {
    split_stream(data, delim)
}

#[test]
fn a_final_delimiter_opens_no_further_run() {
    assert_eq!(runs(b"c.txt\nd.txt\n", b'\n'), vec![b"c.txt".to_vec(), b"d.txt".to_vec()]);
}

#[test]
fn what_follows_the_last_delimiter_is_a_run() {
    assert_eq!(runs(b"c.txt\nd.txt", b'\n'), vec![b"c.txt".to_vec(), b"d.txt".to_vec()]);
}

#[test]
fn adjacent_delimiters_enclose_an_empty_run() {
    assert_eq!(runs(b"a\n\nb", b'\n'), vec![b"a".to_vec(), Vec::new(), b"b".to_vec()]);
    assert_eq!(runs(b"\n\n", b'\n'), vec![Vec::<u8>::new(), Vec::new()]);
}

#[test]
fn an_empty_stream_has_no_run() {
    assert_eq!(runs(b"", b'\n'), Vec::<Vec<u8>>::new());
}

#[test]
fn a_stream_without_delimiter_is_one_run() {
    assert_eq!(runs(b"only", b'\n'), vec![b"only".to_vec()]);
}

#[test]
fn a_lone_delimiter_ends_one_empty_run() {
    assert_eq!(runs(b"\n", b'\n'), vec![Vec::<u8>::new()]);
}

#[test]
fn a_leading_delimiter_ends_an_empty_run() {
    assert_eq!(runs(b"\na", b'\n'), vec![Vec::new(), b"a".to_vec()]);
}

#[test]
fn other_bytes_do_not_split() {
    assert_eq!(runs(b"a b\tc\0d e\0", 0), vec![b"a b\tc".to_vec(), b"d e".to_vec()]);
    assert_eq!(runs(b"x,y,,z", b','), vec![b"x".to_vec(), b"y".to_vec(), Vec::new(), b"z".to_vec()]);
}

#[test]
fn bytes_that_are_no_text_pass_through() {
    assert_eq!(runs(&[0xFF, 0x0A, 0x80, 0xFE], b'\n'), vec![vec![0xFFu8], vec![0x80u8, 0xFE]]);
}

#[test]
fn runs_rejoin_to_the_stream() {
    let data = b"one\ntwo\n\nthree";
    let mut joined = Vec::new();
    for run in runs(data, b'\n') {
        assert!(!run.contains(&b'\n'));
        joined.extend(run);
        joined.push(b'\n');
    }
    assert_eq!(joined, b"one\ntwo\n\nthree\n".to_vec());
}
