use gnss_link::framing::{split_sentences, FrameAssembler, FrameError, Lines, ASSEMBLY_CAPACITY};

fn text(lines: &[Vec<u8>]) -> Vec<String> {
    lines.iter().map(|l| String::from_utf8(l.clone()).unwrap()).collect()
}

fn ok(r: Result<Lines, FrameError>) -> Lines {
    match r {
        Ok(lines) => lines,
        Err(e) => panic!("unexpected error {:?}", e),
    }
}

#[test]
fn partial_sentence_is_completed_by_next_chunk() {
    let mut a = FrameAssembler::new();
    let first = ok(a.ingest(b"$GPGSA,A,3,,,,,,,,,,,,2.5,1.3,2.1*39\r\n$GPGSV,3,1,11,...*74\r\n$GPRM"));
    assert_eq!(
        text(&first.sentences),
        vec![
            "$GPGSA,A,3,,,,,,,,,,,,2.5,1.3,2.1*39\r\n".to_string(),
            "$GPGSV,3,1,11,...*74\r\n".to_string()
        ]
    );
    assert_eq!(first.partial_sentence, Some(b"$GPRM".to_vec()));
    assert_eq!(a.pending_bytes(), b"$GPRM".to_vec());

    let second = ok(a.ingest(b"C,...*1A\r\n"));
    assert_eq!(text(&second.sentences), vec!["$GPRMC,...*1A\r\n".to_string()]);
    assert_eq!(second.partial_sentence, None);
    assert!(a.pending_bytes().is_empty());
}

#[test]
fn n_lines_and_a_fragment() {
    let mut a = FrameAssembler::new();
    let r = ok(a.ingest(b"one\r\ntwo\r\n\r\nthree\r\nfrag"));
    assert_eq!(
        text(&r.sentences),
        vec!["one\r\n", "two\r\n", "\r\n", "three\r\n"]
            .into_iter()
            .map(String::from)
            .collect::<Vec<_>>()
    );
    assert_eq!(r.partial_sentence, Some(b"frag".to_vec()));
}

#[test]
fn chunk_without_terminator_is_absorbed() {
    let mut a = FrameAssembler::new();
    let r = ok(a.ingest(b"$GPGLL,5107"));
    assert!(r.sentences.is_empty());
    assert_eq!(r.partial_sentence, Some(b"$GPGLL,5107".to_vec()));
    let r = ok(a.ingest(b".00\r"));
    assert!(r.sentences.is_empty());
    let r = ok(a.ingest(b"\n"));
    assert_eq!(text(&r.sentences), vec!["$GPGLL,5107.00\r\n".to_string()]);
    assert_eq!(r.partial_sentence, None);
}

#[test]
fn chunk_boundaries_give_the_same_lines() {
    let stream: &[u8] = b"$A,1*00\r\n$B,2*00\r\n$C,3*00\r\n$D";
    let mut whole = FrameAssembler::new();
    let expected = ok(whole.ingest(stream));
    for cut1 in 0..stream.len() {
        for cut2 in cut1..stream.len() {
            let mut a = FrameAssembler::new();
            let mut got: Vec<Vec<u8>> = Vec::new();
            for chunk in [&stream[..cut1], &stream[cut1..cut2], &stream[cut2..]] {
                got.extend(ok(a.ingest(chunk)).sentences);
            }
            assert_eq!(got, expected.sentences);
            assert_eq!(a.pending_bytes(), whole.pending_bytes());
        }
    }
}

#[test]
fn invalid_utf8_discards_buffer() {
    let mut a = FrameAssembler::new();
    ok(a.ingest(b"$GPRMC,partial"));
    assert_eq!(a.pending_bytes(), b"$GPRMC,partial".to_vec());
    assert!(matches!(a.ingest(&[0x24, 0xff, 0xfe, b'\r', b'\n']), Err(FrameError::Decode)));
    assert!(a.pending_bytes().is_empty());
    let r = ok(a.ingest(b"$GPGLL,1*00\r\n"));
    assert_eq!(text(&r.sentences), vec!["$GPGLL,1*00\r\n".to_string()]);
}

#[test]
fn overflow_discards_buffer() {
    let mut a = FrameAssembler::new();
    let big = vec![b'x'; ASSEMBLY_CAPACITY];
    let r = ok(a.ingest(&big));
    assert!(r.sentences.is_empty());
    assert_eq!(a.pending_bytes().len(), ASSEMBLY_CAPACITY);
    assert!(matches!(a.ingest(b"y"), Err(FrameError::Overflow)));
    assert!(a.pending_bytes().is_empty());
}

#[test]
fn capacity_is_exactly_reachable() {
    let mut a = FrameAssembler::new();
    let mut chunk = vec![b'x'; ASSEMBLY_CAPACITY - 2];
    chunk.extend_from_slice(b"\r\n");
    let r = ok(a.ingest(&chunk));
    assert_eq!(r.sentences.len(), 1);
    assert_eq!(r.sentences[0].len(), ASSEMBLY_CAPACITY);
    assert_eq!(r.partial_sentence, None);
}

#[test]
fn split_sentences_keeps_terminators() {
    let (lines, rest) = split_sentences(b"a\r\r\nb\nc\r\nd\r");
    assert_eq!(lines, vec![b"a\r\r\n".to_vec(), b"b\nc\r\n".to_vec()]);
    assert_eq!(rest, b"d\r".to_vec());
    let (lines, rest) = split_sentences(b"");
    assert!(lines.is_empty());
    assert!(rest.is_empty());
}
