//! The receive path of a serial link to the receiver and the commands sent
//! at startup.
use vstd::prelude::*;
use crate::command::GnssMessage;
use crate::framing::{
    chunk_boundaries_do_not_matter, copy_range, lemma_frames_rest_len, ingest_all, ingest_spec, unterminated,
    FrameAssembler, FrameError, ASSEMBLY_CAPACITY,
};
use crate::router::{
    batches_keep_arrival_order, dropped_kinds, failure_count, route, routed_items, GnssData,
    ParseFailure, ParseOutcome, ParsedSentence, RouteReport, TelemetryQueue,
    TELEMETRY_QUEUE_DEPTH,
};

verus! {

/// How long the setup sequence waits, in milliseconds, for the link to
/// settle before it enqueues its commands.
pub const SETUP_DELAY_MS: u64 = 50;

/// What the parser makes of one sentence given without its terminator.
pub uninterp spec fn parsed_of(sentence: Seq<u8>) -> ParseOutcome;

/// Relies on nmea::parse_bytes, which reads one sentence without its
/// terminator; its outcome depends on the bytes alone.
#[verifier::external_body]
fn parse_nmea(sentence: &[u8]) -> (r: ParseOutcome)
    ensures
        r == parsed_of(sentence@),
{
    match nmea::parse_bytes(sentence) {
        Ok(nmea::ParseResult::GSA(d)) => Ok(ParsedSentence::GSA(d)),
        Ok(nmea::ParseResult::GSV(d)) => Ok(ParsedSentence::GSV(d)),
        Ok(nmea::ParseResult::RMC(d)) => Ok(ParsedSentence::RMC(d)),
        Ok(nmea::ParseResult::GLL(d)) => Ok(ParsedSentence::GLL(d)),
        Ok(nmea::ParseResult::GGA(d)) => Ok(ParsedSentence::GGA(d)),
        Ok(_) => Ok(ParsedSentence::Other),
        Err(_) => Err(ParseFailure),
    }
}

/// A completed line without its trailing carriage return and line feed.
pub open spec fn sentence_body(line: Seq<u8>) -> Seq<u8> {
    if line.len() >= 2 && line[line.len() - 2] == 13 && line[line.len() - 1] == 10 {
        line.subrange(0, line.len() - 2)
    } else {
        line
    }
}

/// Drops the trailing terminator of a line, if it has one.
pub fn strip_terminator(line: &[u8]) -> (r: Vec<u8>)
    ensures
        r@ == sentence_body(line@),
{
    let n = line.len();
    if n >= 2 && line[n - 2] == 13 && line[n - 1] == 10 {
        copy_range(line, 0, n - 2)
    } else {
        assert(line@.subrange(0, n as int) =~= line@);
        copy_range(line, 0, n)
    }
}

/// What the parser makes of each completed line, in order.
pub open spec fn parsed_lines(lines: Seq<Seq<u8>>) -> Seq<ParseOutcome> {
    lines.map_values(|l: Seq<u8>| parsed_of(sentence_body(l)))
}

/// Parses one completed line; the terminator is removed first.
pub fn parse_line(line: &[u8]) -> (r: ParseOutcome)
    ensures
        r == parsed_of(sentence_body(line@)),
{
    let body = strip_terminator(line);
    parse_nmea(body.as_slice())
}

/// Parses each completed line, in order.
pub fn parse_lines(lines: &Vec<Vec<u8>>) -> (r: Vec<ParseOutcome>)
    ensures
        r@ == parsed_lines(lines@.map_values(|v: Vec<u8>| v@)),
{
    let mut out: Vec<ParseOutcome> = Vec::new();
    let mut i: usize = 0;
    while i < lines.len()
        invariant
            i <= lines@.len(),
            out@ == parsed_lines(lines@.map_values(|v: Vec<u8>| v@)).subrange(0, i as int),
        decreases lines@.len() - i,
    {
        out.push(parse_line(lines[i].as_slice()));
        i += 1;
        assert(out@ =~= parsed_lines(lines@.map_values(|v: Vec<u8>| v@)).subrange(0, i as int));
    }
    assert(out@ =~= parsed_lines(lines@.map_values(|v: Vec<u8>| v@)));
    out
}

/// Runs one chunk read from the link through framing, parsing and routing.
/// A chunk that framing rejects leaves the queue as it was. Otherwise the
/// queue receives, in order, the forwarded records of what the parser made
/// of the completed lines, for as long as there is room.
pub fn receive_chunk(
    assembler: &mut FrameAssembler,
    chunk: &[u8],
    queue: &mut TelemetryQueue,
) -> (r: Result<RouteReport, FrameError>)
    ensures
        final(assembler).pending() == ingest_spec(old(assembler).pending(), chunk@).1,
        match r {
            Err(e) => ingest_spec(old(assembler).pending(), chunk@).0 == Err::<
                Seq<Seq<u8>>,
                FrameError,
            >(e) && final(queue).items() == old(queue).items(),
            Ok(report) => {
                let batch = parsed_lines(ingest_spec(old(assembler).pending(), chunk@).0->Ok_0);
                &&& ingest_spec(old(assembler).pending(), chunk@).0 is Ok
                &&& final(queue).items() == routed_items(old(queue).items(), batch)
                &&& report.dropped@ == dropped_kinds(old(queue).items(), batch)
                &&& report.parse_failures == failure_count(batch)
            },
        },
{
    match assembler.ingest(chunk) {
        Err(e) => Err(e),
        Ok(lines) => {
            let batch = parse_lines(&lines.sentences);
            let report = route(batch, queue);
            Ok(report)
        },
    }
}

/// Where the link's stream is cut into reads does not change what reaches
/// the telemetry queue: receiving two chunks one after the other queues the
/// same records, and leaves the same bytes buffered, as receiving them as one
/// chunk, provided each chunk is UTF-8 text, the bytes fit in the assembly
/// buffer, and nothing drains the queue in between.
pub proof fn receiving_does_not_depend_on_chunking(
    pending: Seq<u8>,
    a: Seq<u8>,
    b: Seq<u8>,
    items: Seq<GnssData>,
)
    requires
        unterminated(pending),
        vstd::utf8::valid_utf8(a),
        vstd::utf8::valid_utf8(b),
        pending.len() + a.len() + b.len() <= ASSEMBLY_CAPACITY,
        items.len() <= TELEMETRY_QUEUE_DEPTH,
    ensures
        ({
            let first = ingest_spec(pending, a);
            let second = ingest_spec(first.1, b);
            let whole = ingest_spec(pending, a + b);
            &&& first.0 is Ok
            &&& second.0 is Ok
            &&& whole.0 is Ok
            &&& second.1 == whole.1
            &&& parsed_lines(first.0->Ok_0) + parsed_lines(second.0->Ok_0) == parsed_lines(
                whole.0->Ok_0,
            )
            &&& routed_items(
                routed_items(items, parsed_lines(first.0->Ok_0)),
                parsed_lines(second.0->Ok_0),
            ) == routed_items(items, parsed_lines(whole.0->Ok_0))
        }),
{
    let chunks = seq![a, b];
    assert(chunks.drop_first() =~= seq![b]);
    assert(seq![b].drop_first() =~= Seq::<Seq<u8>>::empty());
    assert(seq![b].flatten() =~= b) by {
        assert(Seq::<Seq<u8>>::empty().flatten() =~= Seq::<u8>::empty());
    }
    assert(chunks.flatten() =~= a + b);
    chunk_boundaries_do_not_matter(pending, chunks);
    let first = ingest_spec(pending, a);
    let second = ingest_spec(first.1, b);
    let whole = ingest_spec(pending, a + b);
    assert(chunks[0] == a);
    assert(seq![b][0] == b);
    assert(ingest_all(second.1, Seq::<Seq<u8>>::empty()) == (Ok::<Seq<Seq<u8>>, FrameError>(Seq::<Seq<u8>>::empty()), second.1));
    assert(first.0 is Ok);
    lemma_frames_rest_len(pending + a);
    assert(second.0 is Ok);
    let l1 = first.0->Ok_0;
    let l2 = second.0->Ok_0;
    assert(l2 + Seq::<Seq<u8>>::empty() =~= l2);
    assert(ingest_all(first.1, seq![b]) == (Ok::<Seq<Seq<u8>>, FrameError>(l2), second.1));
    assert(ingest_all(pending, chunks) == (Ok::<Seq<Seq<u8>>, FrameError>(l1 + l2), second.1));
    assert(parsed_lines(l1) + parsed_lines(l2) =~= parsed_lines(l1 + l2));
    assert(whole.0->Ok_0 == l1 + l2);
    batches_keep_arrival_order(items, parsed_lines(l1), parsed_lines(l2));
}

/// The commands the setup sequence enqueues, once, after the link settles:
/// switching UART 0 to 115200 baud when asked, then enabling every
/// constellation.
pub fn startup_commands(change_baudrate: bool) -> (r: Vec<GnssMessage>)
    ensures
        change_baudrate ==> r@ == seq![
            GnssMessage::SetBaudrate { port_type: 0, port_index: 0, baudrate: 115200 },
            GnssMessage::EnableGnssProviders {
                gps: true,
                glonass: true,
                galileo: true,
                bds: true,
                qzss: true,
            },
        ],
        !change_baudrate ==> r@ == seq![
            GnssMessage::EnableGnssProviders {
                gps: true,
                glonass: true,
                galileo: true,
                bds: true,
                qzss: true,
            },
        ],
{
    let mut commands: Vec<GnssMessage> = Vec::new();
    if change_baudrate {
        commands.push(GnssMessage::uart0_at_115200());
    }
    commands.push(GnssMessage::enable_all_providers());
    commands
}

} // verus!
