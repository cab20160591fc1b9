use gnss_link::framing::{FrameAssembler, FrameError};
use gnss_link::link::{parse_line, parse_lines, receive_chunk, startup_commands, strip_terminator};
use gnss_link::router::{
    route, to_telemetry, GnssData, ParseFailure, ParseOutcome, ParsedSentence, SentenceKind,
    TelemetryQueue, TELEMETRY_QUEUE_DEPTH,
};
use gnss_link::command::GnssMessage;

const GSA: &[u8] = b"$GPGSA,A,3,23,31,22,16,03,07,,,,,,,1.8,1.1,1.4*3E\r\n";
const GSV: &[u8] = b"$GPGSV,3,1,11,03,03,111,00,04,15,270,00,06,01,010,00,13,06,292,00*74\r\n";
const RMC: &[u8] = b"$GPRMC,225446.33,A,4916.45,N,12311.12,W,000.5,054.7,191194,020.3,E,A*2B\r\n";
const GLL: &[u8] = b"$GPGLL,5107.0013414,N,11402.3279144,W,205412.00,A,A*73\r\n";
const GGA: &[u8] = b"$GPGGA,,,,,,0,,,,,,,,*66\r\n";
const VTG: &[u8] = b"$GPVTG,360.0,T,348.7,M,000.0,N,000.0,K*43\r\n";

fn kinds(q: &mut TelemetryQueue) -> Vec<SentenceKind> {
    let mut out = Vec::new();
    while let Some(d) = q.try_receive() {
        out.push(d.kind());
    }
    out
}

fn useful(line: &[u8]) -> GnssData {
    match parse_line(line) {
        Ok(p) => to_telemetry(p).expect("a forwarded kind"),
        Err(_) => panic!("line should parse"),
    }
}

#[test]
fn parser_recognises_kinds() {
    assert!(matches!(parse_line(GSA), Ok(ParsedSentence::GSA(_))));
    assert!(matches!(parse_line(GSV), Ok(ParsedSentence::GSV(_))));
    assert!(matches!(parse_line(RMC), Ok(ParsedSentence::RMC(_))));
    assert!(matches!(parse_line(GLL), Ok(ParsedSentence::GLL(_))));
    assert!(matches!(parse_line(GGA), Ok(ParsedSentence::GGA(_))));
    assert!(matches!(parse_line(VTG), Ok(ParsedSentence::Other)));
    assert!(matches!(parse_line(b"$GPGLL,garbage*00\r\n"), Err(ParseFailure)));
    assert!(matches!(parse_line(b""), Err(ParseFailure)));
}

#[test]
fn strip_terminator_only_strips_crlf() {
    assert_eq!(strip_terminator(b"abc\r\n"), b"abc".to_vec());
    assert_eq!(strip_terminator(b"abc\n"), b"abc\n".to_vec());
    assert_eq!(strip_terminator(b"\r\n"), Vec::<u8>::new());
    assert_eq!(strip_terminator(b"x"), b"x".to_vec());
}

#[test]
fn route_filters_and_keeps_order() {
    let lines = vec![GLL.to_vec(), VTG.to_vec(), b"junk\r\n".to_vec(), GSA.to_vec(), GGA.to_vec(), RMC.to_vec(), GSV.to_vec()];
    let batch = parse_lines(&lines);
    assert_eq!(batch.len(), 7);
    let mut q = TelemetryQueue::new();
    let report = route(batch, &mut q);
    assert_eq!(report.parse_failures, 1);
    assert_eq!(report.forwarded, 4);
    assert!(report.dropped.is_empty());
    assert_eq!(q.len(), 4);
    assert_eq!(kinds(&mut q), vec![SentenceKind::GLL, SentenceKind::GSA, SentenceKind::RMC, SentenceKind::GSV]);
}

#[test]
fn full_queue_drops_without_blocking() {
    let mut q = TelemetryQueue::new();
    for _ in 0..TELEMETRY_QUEUE_DEPTH {
        assert!(q.try_send(useful(GLL)).is_ok());
    }
    assert!(q.is_full());
    let batch: Vec<ParseOutcome> = vec![parse_line(RMC), Err(ParseFailure), parse_line(GSA)];
    let report = route(batch, &mut q);
    assert_eq!(report.forwarded, 0);
    assert_eq!(report.parse_failures, 1);
    assert_eq!(report.dropped, vec![SentenceKind::RMC, SentenceKind::GSA]);
    assert_eq!(q.len(), TELEMETRY_QUEUE_DEPTH);
    assert!(q.try_send(useful(GSV)).is_err());
    let all = kinds(&mut q);
    assert!(all.iter().all(|k| *k == SentenceKind::GLL));
}

#[test]
fn nearly_full_queue_takes_a_prefix() {
    let mut q = TelemetryQueue::new();
    for _ in 0..TELEMETRY_QUEUE_DEPTH - 1 {
        q.try_send(useful(GLL)).ok().unwrap();
    }
    let batch: Vec<ParseOutcome> = vec![parse_line(GSA), parse_line(GSV), parse_line(RMC)];
    let report = route(batch, &mut q);
    assert_eq!(report.forwarded, 1);
    assert_eq!(report.dropped, vec![SentenceKind::GSV, SentenceKind::RMC]);
    let all = kinds(&mut q);
    assert_eq!(all.len(), TELEMETRY_QUEUE_DEPTH);
    assert_eq!(all[TELEMETRY_QUEUE_DEPTH - 1], SentenceKind::GSA);
}

#[test]
fn empty_queue_receives_nothing() {
    let mut q = TelemetryQueue::new();
    assert_eq!(q.len(), 0);
    assert!(!q.is_full());
    assert!(q.try_receive().is_none());
}

#[test]
fn receive_chunk_runs_the_whole_path() {
    let mut a = FrameAssembler::new();
    let mut q = TelemetryQueue::new();
    let mut stream = Vec::new();
    stream.extend_from_slice(GSA);
    stream.extend_from_slice(VTG);
    stream.extend_from_slice(&RMC[..20]);
    let report = receive_chunk(&mut a, &stream, &mut q).ok().unwrap();
    assert_eq!(report.forwarded, 1);
    assert_eq!(a.pending_bytes(), RMC[..20].to_vec());
    let report = receive_chunk(&mut a, &RMC[20..], &mut q).ok().unwrap();
    assert_eq!(report.forwarded, 1);
    assert!(a.pending_bytes().is_empty());
    assert_eq!(kinds(&mut q), vec![SentenceKind::GSA, SentenceKind::RMC]);
    assert!(matches!(receive_chunk(&mut a, &[0xc3], &mut q), Err(FrameError::Decode)));
    assert_eq!(q.len(), 0);
}

#[test]
fn startup_sequence() {
    assert_eq!(startup_commands(false), vec![GnssMessage::enable_all_providers()]);
    assert_eq!(
        startup_commands(true),
        vec![GnssMessage::uart0_at_115200(), GnssMessage::enable_all_providers()]
    );
}

#[test]
fn two_batches_route_like_one() {
    let make_first = || vec![parse_line(GSA), parse_line(GSV)];
    let make_second = || vec![parse_line(RMC), parse_line(VTG), parse_line(GLL)];

    let mut split = TelemetryQueue::new();
    for _ in 0..TELEMETRY_QUEUE_DEPTH - 3 {
        split.try_send(useful(GLL)).ok().unwrap();
    }
    let r1 = route(make_first(), &mut split);
    let r2 = route(make_second(), &mut split);

    let mut joined = TelemetryQueue::new();
    for _ in 0..TELEMETRY_QUEUE_DEPTH - 3 {
        joined.try_send(useful(GLL)).ok().unwrap();
    }
    let mut both = make_first();
    both.extend(make_second());
    let r = route(both, &mut joined);

    let mut dropped = r1.dropped.clone();
    dropped.extend(r2.dropped.iter().copied());
    assert_eq!(dropped, r.dropped);
    assert_eq!(r.dropped, vec![SentenceKind::GLL]);
    assert_eq!(kinds(&mut split), kinds(&mut joined));
}


#[test]
fn receiving_in_pieces_queues_the_same_records() {
    let mut stream = Vec::new();
    for line in [GLL, VTG, GSA, b"bad\r\n".as_slice(), RMC, GSV] {
        stream.extend_from_slice(line);
    }
    stream.extend_from_slice(b"$GPGS");

    let mut whole_a = FrameAssembler::new();
    let mut whole_q = TelemetryQueue::new();
    let whole = receive_chunk(&mut whole_a, &stream, &mut whole_q).ok().unwrap();
    let expected = kinds(&mut whole_q);
    assert_eq!(expected, vec![SentenceKind::GLL, SentenceKind::GSA, SentenceKind::RMC, SentenceKind::GSV]);
    assert_eq!(whole.parse_failures, 1);

    for cut in [1, 37, 60, 100, stream.len() - 1] {
        let mut a = FrameAssembler::new();
        let mut q = TelemetryQueue::new();
        let r1 = receive_chunk(&mut a, &stream[..cut], &mut q).ok().unwrap();
        let r2 = receive_chunk(&mut a, &stream[cut..], &mut q).ok().unwrap();
        assert_eq!(r1.parse_failures + r2.parse_failures, 1);
        assert_eq!(a.pending_bytes(), whole_a.pending_bytes());
        assert_eq!(kinds(&mut q), expected);
    }
}
