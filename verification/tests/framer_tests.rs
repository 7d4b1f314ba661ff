use ollie::framer::LineFramer;

fn drain_strings(f: &mut LineFramer) -> Vec<String> {
    f.drain().into_iter().map(|l| String::from_utf8(l).unwrap()).collect()
}

#[test]
fn single_terminated_line() {
    let mut f = LineFramer::new();
    f.feed(b"{\"status\":\"ok\"}\n");
    let lines = drain_strings(&mut f);
    assert_eq!(lines, vec!["{\"status\":\"ok\"}".to_string()]);
    assert!(f.flush_remainder().is_none());
}

#[test]
fn line_split_across_chunks() {
    let mut f = LineFramer::new();
    f.feed(b"{\"status\":\"down");
    assert!(f.drain().is_empty());
    f.feed(b"loading\"}\nrest");
    let lines = drain_strings(&mut f);
    assert_eq!(lines, vec!["{\"status\":\"downloading\"}".to_string()]);
    let tail = f.flush_remainder().unwrap();
    assert_eq!(tail, b"rest".to_vec());
}

#[test]
fn multibyte_character_split_across_chunks() {
    // "é\n" is [0xC3, 0xA9, 0x0A]; split in the middle of the character.
    let mut f = LineFramer::new();
    f.feed(&[0xC3]);
    assert!(f.drain().is_empty());
    f.feed(&[0xA9, 0x0A]);
    let lines = f.drain();
    assert_eq!(lines.len(), 1);
    assert_eq!(lines[0], vec![0xC3, 0xA9]);
}

#[test]
fn empty_and_whitespace_lines_are_discarded() {
    let mut f = LineFramer::new();
    f.feed(b"\n   \n a \n\t\nb\n");
    let lines = drain_strings(&mut f);
    assert_eq!(lines, vec!["a".to_string(), "b".to_string()]);
}

#[test]
fn lines_are_trimmed() {
    let mut f = LineFramer::new();
    f.feed(b"  {\"x\":1}  \r\n");
    let lines = drain_strings(&mut f);
    assert_eq!(lines, vec!["{\"x\":1}".to_string()]);
}

#[test]
fn chunk_splits_do_not_change_the_lines() {
    let whole: &[u8] = b"alpha\n beta \n\ngamma";
    let mut expected_framer = LineFramer::new();
    expected_framer.feed(whole);
    let mut expected = expected_framer.drain();
    if let Some(tail) = expected_framer.flush_remainder() {
        expected.push(tail);
    }
    assert_eq!(expected.len(), 3);

    // Every split position of the same bytes into two chunks.
    for cut in 0..whole.len() {
        let mut f = LineFramer::new();
        let mut got = Vec::new();
        f.feed(&whole[..cut]);
        got.append(&mut f.drain());
        f.feed(&whole[cut..]);
        got.append(&mut f.drain());
        if let Some(tail) = f.flush_remainder() {
            got.push(tail);
        }
        assert_eq!(got, expected);
    }
}

#[test]
fn flush_remainder_empties_the_buffer() {
    let mut f = LineFramer::new();
    f.feed(b"  tail  ");
    let tail = f.flush_remainder().unwrap();
    assert_eq!(tail, b"tail".to_vec());
    assert!(f.flush_remainder().is_none());
}

#[test]
fn flush_remainder_of_whitespace_is_nothing() {
    let mut f = LineFramer::new();
    f.feed(b"   \t ");
    assert!(f.flush_remainder().is_none());
}
