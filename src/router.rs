//! Dispatch of parsed sentences to the telemetry queue.
use vstd::prelude::*;

verus! {

#[verifier::external_type_specification]
#[verifier::external_body]
pub struct ExGsaData(nmea::sentences::GsaData);

#[verifier::external_type_specification]
#[verifier::external_body]
pub struct ExGsvData(nmea::sentences::GsvData);

#[verifier::external_type_specification]
#[verifier::external_body]
pub struct ExRmcData(nmea::sentences::RmcData);

#[verifier::external_type_specification]
#[verifier::external_body]
pub struct ExGllData(nmea::sentences::GllData);

#[verifier::external_type_specification]
#[verifier::external_body]
pub struct ExGgaData(nmea::sentences::GgaData);

#[verifier::external_type_specification]
#[verifier::external_body]
#[verifier::reject_recursive_types(T)]
pub struct ExBoundedDeque<T, const N: usize>(heapless::Deque<T, N>);

/// A navigation record worth forwarding as telemetry.
#[derive(Debug)]
pub enum GnssData {
    /// Fix quality: DOP and active satellites.
    GSA(nmea::sentences::GsaData),
    /// Satellites in view.
    GSV(nmea::sentences::GsvData),
    /// Recommended minimum course data.
    RMC(nmea::sentences::RmcData),
    /// Geographic position.
    GLL(nmea::sentences::GllData),
}

/// The kind of a forwarded record, reported when one is dropped.
#[derive(Clone, Copy, PartialEq, Eq, Debug)]
pub enum SentenceKind {
    GSA,
    GSV,
    RMC,
    GLL,
}

impl GnssData {
    pub open spec fn kind_spec(&self) -> SentenceKind {
        match self {
            GnssData::GSA(_) => SentenceKind::GSA,
            GnssData::GSV(_) => SentenceKind::GSV,
            GnssData::RMC(_) => SentenceKind::RMC,
            GnssData::GLL(_) => SentenceKind::GLL,
        }
    }

    /// The kind of this record.
    pub fn kind(&self) -> (r: SentenceKind)
        ensures
            r == self.kind_spec(),
    {
        match self {
            GnssData::GSA(_) => SentenceKind::GSA,
            GnssData::GSV(_) => SentenceKind::GSV,
            GnssData::RMC(_) => SentenceKind::RMC,
            GnssData::GLL(_) => SentenceKind::GLL,
        }
    }
}

/// A sentence as the parser understood it.
#[derive(Debug)]
pub enum ParsedSentence {
    GSA(nmea::sentences::GsaData),
    GSV(nmea::sentences::GsvData),
    RMC(nmea::sentences::RmcData),
    GLL(nmea::sentences::GllData),
    GGA(nmea::sentences::GgaData),
    /// A well-formed sentence of any other kind.
    Other,
}

/// The telemetry record for a parsed sentence, when its kind is one that is
/// forwarded: fix quality (GSA), satellites in view (GSV), minimum course
/// (RMC) and geographic position (GLL).
pub open spec fn telemetry_of(p: ParsedSentence) -> Option<GnssData> {
    match p {
        ParsedSentence::GSA(d) => Some(GnssData::GSA(d)),
        ParsedSentence::GSV(d) => Some(GnssData::GSV(d)),
        ParsedSentence::RMC(d) => Some(GnssData::RMC(d)),
        ParsedSentence::GLL(d) => Some(GnssData::GLL(d)),
        _ => None,
    }
}

/// Turns a parsed sentence into its telemetry record, if its kind is
/// forwarded.
pub fn to_telemetry(p: ParsedSentence) -> (r: Option<GnssData>)
    ensures
        r == telemetry_of(p),
{
    match p {
        ParsedSentence::GSA(d) => Some(GnssData::GSA(d)),
        ParsedSentence::GSV(d) => Some(GnssData::GSV(d)),
        ParsedSentence::RMC(d) => Some(GnssData::RMC(d)),
        ParsedSentence::GLL(d) => Some(GnssData::GLL(d)),
        _ => None,
    }
}

/// A line that the parser could not read as a sentence.
#[derive(Clone, Copy, PartialEq, Eq, Debug)]
pub struct ParseFailure;

/// What the parser made of one line.
pub type ParseOutcome = Result<ParsedSentence, ParseFailure>;

/// The records of a batch that are forwarded, in order.
pub open spec fn useful_records(batch: Seq<ParseOutcome>) -> Seq<GnssData>
    decreases batch.len(),
{
    if batch.len() == 0 {
        Seq::empty()
    } else {
        let head = match batch[0] {
            Ok(p) => match telemetry_of(p) {
                Some(d) => seq![d],
                None => Seq::empty(),
            },
            Err(_) => Seq::empty(),
        };
        head + useful_records(batch.drop_first())
    }
}

/// How many outcomes of a batch are parse failures.
pub open spec fn failure_count(batch: Seq<ParseOutcome>) -> nat
    decreases batch.len(),
{
    if batch.len() == 0 {
        0
    } else {
        (if batch[0] is Err {
            1nat
        } else {
            0nat
        }) + failure_count(batch.drop_first())
    }
}

/// How many records the telemetry queue holds at most.
pub const TELEMETRY_QUEUE_DEPTH: usize = 100;

/// The records waiting in a telemetry queue, oldest first.
pub uninterp spec fn queued_records(q: heapless::Deque<GnssData, 100>) -> Seq<GnssData>;

/// Relies on heapless::Deque::new: the new deque is empty.
#[verifier::external_body]
fn deque_new() -> (r: heapless::Deque<GnssData, 100>)
    ensures
        queued_records(r) == Seq::<GnssData>::empty(),
{
    heapless::Deque::new()
}

/// Relies on heapless::Deque::len: the number of items held, which never
/// exceeds the capacity.
#[verifier::external_body]
fn deque_len(q: &heapless::Deque<GnssData, 100>) -> (r: usize)
    ensures
        r == queued_records(*q).len(),
        r <= 100,
{
    q.len()
}

/// Relies on heapless::Deque::push_back: the item goes to the back unless the
/// deque is full, in which case it is handed back and nothing changes.
#[verifier::external_body]
fn deque_push_back(q: &mut heapless::Deque<GnssData, 100>, item: GnssData) -> (r: Result<(), GnssData>)
    ensures
        queued_records(*old(q)).len() < 100 ==> r is Ok && queued_records(*final(q))
            == queued_records(*old(q)).push(item),
        queued_records(*old(q)).len() >= 100 ==> r is Err && r->Err_0 == item && queued_records(
            *final(q),
        ) == queued_records(*old(q)),
{
    q.push_back(item)
}

/// Relies on heapless::Deque::pop_front: the oldest item leaves, or `None`
/// when the deque is empty.
#[verifier::external_body]
fn deque_pop_front(q: &mut heapless::Deque<GnssData, 100>) -> (r: Option<GnssData>)
    ensures
        queued_records(*old(q)).len() == 0 ==> r is None && queued_records(*final(q))
            == queued_records(*old(q)),
        queued_records(*old(q)).len() > 0 ==> r == Some(queued_records(*old(q))[0])
            && queued_records(*final(q)) == queued_records(*old(q)).drop_first(),
{
    q.pop_front()
}

/// A bounded mailbox of telemetry records; offering to a full one drops the
/// record instead of waiting.
pub struct TelemetryQueue {
    records: heapless::Deque<GnssData, 100>,
}

impl TelemetryQueue {
    /// The records waiting, oldest first.
    pub closed spec fn items(&self) -> Seq<GnssData> {
        queued_records(self.records)
    }

    /// An empty queue.
    pub fn new() -> (r: TelemetryQueue)
        ensures
            r.items() == Seq::<GnssData>::empty(),
    {
        TelemetryQueue { records: deque_new() }
    }

    /// The number of records waiting.
    pub fn len(&self) -> (r: usize)
        ensures
            r == self.items().len(),
            r <= TELEMETRY_QUEUE_DEPTH,
    {
        deque_len(&self.records)
    }

    /// Whether no more records fit.
    pub fn is_full(&self) -> (r: bool)
        ensures
            r == (self.items().len() >= TELEMETRY_QUEUE_DEPTH),
    {
        deque_len(&self.records) >= TELEMETRY_QUEUE_DEPTH
    }

    /// Offers a record without waiting: it is queued when there is room, and
    /// handed back otherwise.
    pub fn try_send(&mut self, record: GnssData) -> (r: Result<(), GnssData>)
        ensures
            old(self).items().len() < TELEMETRY_QUEUE_DEPTH ==> r is Ok && final(self).items()
                == old(self).items().push(record),
            old(self).items().len() >= TELEMETRY_QUEUE_DEPTH ==> r == Err::<(), GnssData>(record)
                && final(self).items() == old(self).items(),
    {
        deque_push_back(&mut self.records, record)
    }

    /// Takes the oldest record, if any.
    pub fn try_receive(&mut self) -> (r: Option<GnssData>)
        ensures
            old(self).items().len() == 0 ==> r is None && final(self).items() == old(self).items(),
            old(self).items().len() > 0 ==> r == Some(old(self).items()[0]) && final(self).items()
                == old(self).items().drop_first(),
    {
        deque_pop_front(&mut self.records)
    }
}

/// What routing one batch did.
pub struct RouteReport {
    /// How many lines the parser rejected.
    pub parse_failures: usize,
    /// How many records were queued.
    pub forwarded: usize,
    /// The kinds of the records dropped because the queue was full, in order.
    pub dropped: Vec<SentenceKind>,
}

/// How many of `n` offered records a queue holding `len` takes.
pub open spec fn accepted(len: nat, n: nat) -> nat {
    if len >= TELEMETRY_QUEUE_DEPTH {
        0
    } else if n <= TELEMETRY_QUEUE_DEPTH - len {
        n
    } else {
        (TELEMETRY_QUEUE_DEPTH - len) as nat
    }
}

/// The queue's records after routing `batch` into a queue holding `items`.
pub open spec fn routed_items(items: Seq<GnssData>, batch: Seq<ParseOutcome>) -> Seq<GnssData> {
    let u = useful_records(batch);
    items + u.subrange(0, accepted(items.len(), u.len()) as int)
}

/// The kinds of the records that routing `batch` into a queue holding
/// `items` drops, in order.
pub open spec fn dropped_kinds(items: Seq<GnssData>, batch: Seq<ParseOutcome>) -> Seq<SentenceKind> {
    let u = useful_records(batch);
    u.subrange(accepted(items.len(), u.len()) as int, u.len() as int).map_values(
        |d: GnssData| d.kind_spec(),
    )
}

/// Once the queue is full, routing delivers nothing: the queue keeps exactly
/// the records it held, and every useful record of the batch is reported as
/// dropped, in order.
pub proof fn full_queue_delivers_nothing(items: Seq<GnssData>, batch: Seq<ParseOutcome>)
    requires
        items.len() >= TELEMETRY_QUEUE_DEPTH,
    ensures
        routed_items(items, batch) == items,
        dropped_kinds(items, batch) == useful_records(batch).map_values(
            |d: GnssData| d.kind_spec(),
        ),
{
    let u = useful_records(batch);
    assert(items + u.subrange(0, 0) =~= items);
    assert(u.subrange(0, u.len() as int) =~= u);
}

proof fn lemma_useful_records_append(a: Seq<ParseOutcome>, b: Seq<ParseOutcome>)
    ensures
        useful_records(a + b) == useful_records(a) + useful_records(b),
    decreases a.len(),
{
    if a.len() == 0 {
        assert(a + b =~= b);
    } else {
        assert((a + b).drop_first() =~= a.drop_first() + b);
        lemma_useful_records_append(a.drop_first(), b);
        assert((a + b)[0] == a[0]);
    }
}

/// Routing keeps arrival order across batches: routing one batch and then
/// the next into a queue that nobody drains in between leaves the same
/// records queued, and drops the same kinds in the same order, as routing
/// the two batches as one.
pub proof fn batches_keep_arrival_order(
    items: Seq<GnssData>,
    first: Seq<ParseOutcome>,
    second: Seq<ParseOutcome>,
)
    requires
        items.len() <= TELEMETRY_QUEUE_DEPTH,
    ensures
        routed_items(routed_items(items, first), second) == routed_items(items, first + second),
        dropped_kinds(items, first) + dropped_kinds(routed_items(items, first), second)
            == dropped_kinds(items, first + second),
{
    lemma_useful_records_append(first, second);
    let u1 = useful_records(first);
    let u2 = useful_records(second);
    let u = u1 + u2;
    let k1 = accepted(items.len(), u1.len()) as int;
    let q1 = routed_items(items, first);
    let k2 = accepted(q1.len(), u2.len()) as int;
    let k = accepted(items.len(), u.len()) as int;
    let f = |d: GnssData| d.kind_spec();
    if k1 < u1.len() {
        assert(k2 == 0);
        assert(k == k1);
        assert(u.subrange(0, k) =~= u1.subrange(0, k1));
        assert(q1 + u2.subrange(0, k2) =~= q1);
        assert(u.subrange(k, u.len() as int) =~= u1.subrange(k1, u1.len() as int) + u2);
        assert(u2.subrange(0, u2.len() as int) =~= u2);
        assert(u.subrange(k, u.len() as int).map_values(f) =~= u1.subrange(k1, u1.len() as int).map_values(f)
            + u2.subrange(k2, u2.len() as int).map_values(f));
    } else {
        assert(k == u1.len() + k2);
        assert(u.subrange(0, k) =~= u1 + u2.subrange(0, k2));
        assert(u1.subrange(0, k1) =~= u1);
        assert(q1 + u2.subrange(0, k2) =~= items + u.subrange(0, k));
        assert(u1.subrange(k1, u1.len() as int) =~= Seq::<GnssData>::empty());
        assert(u.subrange(k, u.len() as int) =~= u2.subrange(k2, u2.len() as int));
        assert(u.subrange(k, u.len() as int).map_values(f) =~= u1.subrange(k1, u1.len() as int).map_values(f)
            + u2.subrange(k2, u2.len() as int).map_values(f));
    }
}

/// Routes a batch of parse outcomes in order: failures are counted and
/// skipped, records of other kinds are skipped, and each useful record is
/// offered to the queue without waiting; one that does not fit is dropped
/// and its kind reported.
pub fn route(batch: Vec<ParseOutcome>, queue: &mut TelemetryQueue) -> (r: RouteReport)
    ensures
        final(queue).items() == routed_items(old(queue).items(), batch@),
        r.dropped@ == dropped_kinds(old(queue).items(), batch@),
        r.forwarded == accepted(old(queue).items().len(), useful_records(batch@).len()),
        r.parse_failures == failure_count(batch@),
{
    let ghost all = batch@;
    let total = batch.len();
    let held = queue.len();
    assert(total == all.len() && held <= TELEMETRY_QUEUE_DEPTH);
    let mut rest = batch;
    let mut parse_failures: usize = 0;
    let mut forwarded: usize = 0;
    let mut dropped: Vec<SentenceKind> = Vec::new();
    let ghost start = queue.items();
    let ghost mut seen: Seq<GnssData> = Seq::empty();
    assert(all.subrange(0, all.len() as int) =~= all);
    while rest.len() > 0
        invariant
            useful_records(all) == seen + useful_records(rest@),
            failure_count(all) == parse_failures + failure_count(rest@),
            parse_failures + rest@.len() <= all.len(),
            ({
                let k = accepted(start.len(), seen.len()) as int;
                &&& queue.items() == start + seen.subrange(0, k)
                &&& forwarded == k
                &&& dropped@ == seen.subrange(k, seen.len() as int).map_values(
                    |d: GnssData| d.kind_spec(),
                )
            }),
            all.len() <= usize::MAX,
            start.len() <= TELEMETRY_QUEUE_DEPTH,
        decreases rest@.len(),
    {
        let ghost before = rest@;
        let outcome = rest.remove(0);
        assert(rest@ =~= before.drop_first());
        match outcome {
            Err(_) => {
                parse_failures += 1;
            },
            Ok(p) => match to_telemetry(p) {
            None => {},
            Some(record) => {
                let kind = record.kind();
                let ghost k0 = accepted(start.len(), seen.len()) as int;
                proof {
                    seen = seen.push(record);
                }
                match queue.try_send(record) {
                    Ok(()) => {
                        forwarded += 1;
                    },
                    Err(_) => {
                        dropped.push(kind);
                    },
                }
                let ghost k1 = accepted(start.len(), seen.len()) as int;
                let ghost prev = seen.drop_last();
                assert(prev.subrange(0, k0) =~= seen.subrange(0, k0));
                proof {
                if k1 == k0 {
                    assert(seen.subrange(k1, seen.len() as int) =~= prev.subrange(
                        k0,
                        prev.len() as int,
                    ).push(record));
                    assert(seen.subrange(k1, seen.len() as int).map_values(
                        |d: GnssData| d.kind_spec(),
                    ) =~= prev.subrange(k0, prev.len() as int).map_values(
                        |d: GnssData| d.kind_spec(),
                    ).push(kind));
                } else {
                    assert(seen.subrange(0, k1) =~= prev.subrange(0, k0).push(record));
                    assert(seen.subrange(k1, seen.len() as int) =~= Seq::<GnssData>::empty());
                    assert(prev.subrange(k0, prev.len() as int) =~= Seq::<GnssData>::empty());
                }
                }
            },
            },
        }
    }
    assert(useful_records(rest@) =~= Seq::<GnssData>::empty());
    assert(seen =~= useful_records(all));
    RouteReport { parse_failures, forwarded, dropped }
}

} // verus!
