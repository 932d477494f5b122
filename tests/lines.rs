use brickatlas::lines::LineSplitter;

fn feed_all(chunks: &[&[u8]]) -> (Vec<Vec<u8>>, Vec<u8>) {
    let mut splitter = LineSplitter::new();
    let mut lines = Vec::new();
    for chunk in chunks {
        lines.extend(splitter.feed(chunk));
    }
    (lines, splitter.pending())
}

#[test]
fn feed_returns_complete_lines_in_order() {
    let (lines, pending) = feed_all(&[b"first\nsecond\nthird"]);
    assert_eq!(lines, vec![b"first".to_vec(), b"second".to_vec()]);
    assert_eq!(pending, b"third".to_vec());
}

#[test]
fn feed_keeps_fragment_until_terminated() {
    let mut splitter = LineSplitter::new();
    assert!(splitter.feed(b"You have ent").is_empty());
    assert_eq!(splitter.pending(), b"You have ent".to_vec());
    let lines = splitter.feed(b"ered Lioneye's Watch\n");
    assert_eq!(lines, vec![b"You have entered Lioneye's Watch".to_vec()]);
    assert!(splitter.pending().is_empty());
}

#[test]
fn reassembly_does_not_depend_on_chunking() {
    let stream: &[u8] = b"alpha\nbeta\n\ngamma\ndelta";
    let (whole, whole_pending) = feed_all(&[stream]);
    assert_eq!(whole.len(), 4);
    for cut in 0..=stream.len() {
        let (a, b) = stream.split_at(cut);
        assert_eq!(feed_all(&[a, b]), (whole.clone(), whole_pending.clone()));
    }
    let bytewise: Vec<&[u8]> = stream.chunks(1).collect();
    assert_eq!(feed_all(&bytewise), (whole, whole_pending));
}

#[test]
fn line_count_equals_terminator_count() {
    let (lines, pending) = feed_all(&[b"\n\nx\n", b"y\n\n"]);
    assert_eq!(lines, vec![b"".to_vec(), b"".to_vec(), b"x".to_vec(), b"y".to_vec(), b"".to_vec()]);
    assert!(pending.is_empty());
}

#[test]
fn empty_feed_changes_nothing() {
    let mut splitter = LineSplitter::new();
    splitter.feed(b"partial");
    assert!(splitter.feed(b"").is_empty());
    assert_eq!(splitter.pending(), b"partial".to_vec());
}
