//! Reassembly of terminator-delimited sentences from arbitrarily chunked bytes.
use vstd::prelude::*;

verus! {

/// The most bytes the assembly buffer holds: the largest plausible burst of
/// sentences that can arrive before a terminator.
pub const ASSEMBLY_CAPACITY: usize = 512;

#[verifier::external_type_specification]
#[verifier::external_body]
#[verifier::reject_recursive_types(T)]
pub struct ExBoundedVec<T, const N: usize>(heapless::Vec<T, N>);

/// The bytes held by an assembly buffer.
pub uninterp spec fn buffered_bytes(v: heapless::Vec<u8, 512>) -> Seq<u8>;

/// Relies on heapless::Vec::new: the new vector is empty.
#[verifier::external_body]
fn buffer_new() -> (r: heapless::Vec<u8, 512>)
    ensures
        buffered_bytes(r) == Seq::<u8>::empty(),
{
    heapless::Vec::new()
}

/// Relies on heapless::Vec::as_slice: the slice holds the vector's elements,
/// of which there are never more than its capacity.
#[verifier::external_body]
fn buffer_as_slice(v: &heapless::Vec<u8, 512>) -> (r: &[u8])
    ensures
        r@ == buffered_bytes(*v),
        r@.len() <= 512,
{
    v.as_slice()
}

/// Relies on heapless::Vec::extend_from_slice: the bytes are appended when
/// they fit in the capacity; otherwise the vector is left as it was.
#[verifier::external_body]
fn buffer_extend(v: &mut heapless::Vec<u8, 512>, bytes: &[u8]) -> (r: Result<(), ()>)
    ensures
        buffered_bytes(*old(v)).len() + bytes@.len() <= 512 ==> r is Ok && buffered_bytes(
            *final(v),
        ) == buffered_bytes(*old(v)) + bytes@,
        buffered_bytes(*old(v)).len() + bytes@.len() > 512 ==> r is Err && buffered_bytes(
            *final(v),
        ) == buffered_bytes(*old(v)),
{
    v.extend_from_slice(bytes)
}

/// Relies on heapless::Vec::clear: the vector is left empty.
#[verifier::external_body]
fn buffer_clear(v: &mut heapless::Vec<u8, 512>)
    ensures
        buffered_bytes(*final(v)) == Seq::<u8>::empty(),
{
    v.clear()
}

/// Relies on core::str::from_utf8: it accepts a byte slice exactly when the
/// slice is well-formed UTF-8 (no overlong forms, no surrogates, nothing past
/// U+10FFFF), which is what vstd's `valid_utf8` states.
#[verifier::external_body]
fn is_text(bytes: &[u8]) -> (r: bool)
    ensures
        r == vstd::utf8::valid_utf8(bytes@),
{
    core::str::from_utf8(bytes).is_ok()
}

/// Whether a carriage return followed by a line feed starts at `i`.
pub open spec fn terminator_at(s: Seq<u8>, i: int) -> bool {
    0 <= i && i + 1 < s.len() && s[i] == 13 && s[i + 1] == 10
}

/// The position of the first terminator at or after `i`, or `s.len()` if
/// there is none.
pub open spec fn next_terminator(s: Seq<u8>, i: int) -> int
    recommends
        0 <= i,
    decreases s.len() - i,
{
    if i < 0 || i + 1 >= s.len() {
        s.len() as int
    } else if s[i] == 13 && s[i + 1] == 10 {
        i
    } else {
        next_terminator(s, i + 1)
    }
}

/// The complete sentences at the front of `s`, each with its terminator, in
/// order, and the fragment after the last terminator.
pub open spec fn frames(s: Seq<u8>) -> (Seq<Seq<u8>>, Seq<u8>)
    decreases s.len(),
{
    let j = next_terminator(s, 0);
    if 0 <= j && j + 2 <= s.len() {
        let rest = frames(s.subrange(j + 2, s.len() as int));
        (seq![s.subrange(0, j + 2)] + rest.0, rest.1)
    } else {
        (Seq::empty(), s)
    }
}

/// Why a chunk produced no sentences.
#[derive(Clone, Copy, PartialEq, Eq, Debug)]
pub enum FrameError {
    /// The chunk is not well-formed UTF-8 text.
    Decode,
    /// The pending bytes and the chunk together exceed the buffer's capacity.
    Overflow,
}

/// What one ingested chunk completed.
pub struct Lines {
    /// The completed sentences, each ending with carriage return and line feed.
    pub sentences: Vec<Vec<u8>>,
    /// The bytes after the last terminator, now waiting for more input;
    /// `None` when nothing waits.
    pub partial_sentence: Option<Vec<u8>>,
}

impl Lines {
    pub open spec fn sentences_view(&self) -> Seq<Seq<u8>> {
        self.sentences@.map_values(|v: Vec<u8>| v@)
    }
}

/// What ingesting `chunk` with `pending` bytes buffered gives: the completed
/// sentences or the error, and the bytes left buffered.
pub open spec fn ingest_spec(pending: Seq<u8>, chunk: Seq<u8>) -> (
    Result<Seq<Seq<u8>>, FrameError>,
    Seq<u8>,
) {
    if !vstd::utf8::valid_utf8(chunk) {
        (Err(FrameError::Decode), Seq::empty())
    } else if pending.len() + chunk.len() > ASSEMBLY_CAPACITY {
        (Err(FrameError::Overflow), Seq::empty())
    } else {
        (Ok(frames(pending + chunk).0), frames(pending + chunk).1)
    }
}

proof fn lemma_skip_to(s: Seq<u8>, a: int, b: int)
    requires
        0 <= a <= b,
        forall|k: int| a <= k < b ==> !terminator_at(s, k),
    ensures
        next_terminator(s, a) == next_terminator(s, b),
    decreases b - a,
{
    if a < b && a + 1 < s.len() {
        assert(!terminator_at(s, a));
        lemma_skip_to(s, a + 1, b);
    }
}

proof fn lemma_next_terminator_found(s: Seq<u8>, i: int)
    requires
        0 <= i,
    ensures
        next_terminator(s, i) < s.len() ==> terminator_at(s, next_terminator(s, i)) && i
            <= next_terminator(s, i),
        next_terminator(s, i) >= s.len() ==> next_terminator(s, i) == s.len(),
    decreases s.len() - i,
{
    if i + 1 < s.len() && !(s[i] == 13 && s[i + 1] == 10) {
        lemma_next_terminator_found(s, i + 1);
    }
}

pub(crate) proof fn lemma_frames_rest_len(s: Seq<u8>)
    ensures
        frames(s).1.len() <= s.len(),
    decreases s.len(),
{
    let j = next_terminator(s, 0);
    lemma_next_terminator_found(s, 0);
    if j < s.len() {
        lemma_frames_rest_len(s.subrange(j + 2, s.len() as int));
    }
}

proof fn lemma_next_terminator_prefix(x: Seq<u8>, y: Seq<u8>, i: int)
    requires
        0 <= i,
        next_terminator(x, i) + 1 < x.len(),
    ensures
        next_terminator(x + y, i) == next_terminator(x, i),
    decreases x.len() - i,
{
    if i + 1 < x.len() && !(x[i] == 13 && x[i + 1] == 10) {
        lemma_next_terminator_prefix(x, y, i + 1);
    }
}

proof fn lemma_frames_append(x: Seq<u8>, y: Seq<u8>)
    ensures
        frames(x + y).0 == frames(x).0 + frames(frames(x).1 + y).0,
        frames(x + y).1 == frames(frames(x).1 + y).1,
    decreases x.len(),
{
    let j = next_terminator(x, 0);
    lemma_next_terminator_found(x, 0);
    if 0 <= j && j + 2 <= x.len() {
        lemma_next_terminator_prefix(x, y, 0);
        let x2 = x.subrange(j + 2, x.len() as int);
        assert((x + y).subrange(j + 2, (x + y).len() as int) =~= x2 + y);
        assert((x + y).subrange(0, j + 2) =~= x.subrange(0, j + 2));
        lemma_frames_append(x2, y);
        assert(frames(x + y).0 =~= frames(x).0 + frames(frames(x).1 + y).0);
    } else {
        assert(frames(x).0 + frames(frames(x).1 + y).0 =~= frames(x + y).0);
    }
}

/// Feeding chunks one after another: the sentences of every call in order,
/// up to the first error, and the bytes left buffered at the end.
pub open spec fn ingest_all(pending: Seq<u8>, chunks: Seq<Seq<u8>>) -> (
    Result<Seq<Seq<u8>>, FrameError>,
    Seq<u8>,
)
    decreases chunks.len(),
{
    if chunks.len() == 0 {
        (Ok(Seq::empty()), pending)
    } else {
        let first = ingest_spec(pending, chunks[0]);
        match first.0 {
            Err(e) => (Err(e), first.1),
            Ok(lines) => {
                let rest = ingest_all(first.1, chunks.drop_first());
                match rest.0 {
                    Ok(more) => (Ok(lines + more), rest.1),
                    Err(e) => (Err(e), rest.1),
                }
            },
        }
    }
}

/// Where a stream is cut into chunks does not matter: feeding the chunks one
/// after another gives the same sentences, in the same order, and leaves the
/// same bytes buffered as feeding the whole stream at once, provided each
/// chunk is UTF-8 text and everything fits in the buffer.
pub proof fn chunk_boundaries_do_not_matter(pending: Seq<u8>, chunks: Seq<Seq<u8>>)
    requires
        unterminated(pending),
        forall|i: int| 0 <= i < chunks.len() ==> vstd::utf8::valid_utf8(#[trigger] chunks[i]),
        pending.len() + chunks.flatten().len() <= ASSEMBLY_CAPACITY,
    ensures
        ingest_all(pending, chunks) == ingest_spec(pending, chunks.flatten()),
        ingest_all(pending, chunks).0 is Ok,
    decreases chunks.len(),
{
    broadcast use vstd::utf8::valid_utf8_concat;

    if chunks.len() == 0 {
        assert(pending + chunks.flatten() =~= pending);
        assert(vstd::utf8::valid_utf8(Seq::<u8>::empty()));
        lemma_unterminated_frames(pending);
    } else {
        let c = chunks[0];
        let rest = chunks.drop_first();
        assert(chunks.flatten() == c + rest.flatten());
        let first = frames(pending + c);
        lemma_frames_rest_len(pending + c);
        lemma_rest_unterminated(pending + c);
        assert(forall|i: int| 0 <= i < rest.len() ==> rest[i] == chunks[i + 1]);
        chunk_boundaries_do_not_matter(first.1, rest);
        lemma_flatten_text(rest);
        lemma_frames_append(pending + c, rest.flatten());
        assert(pending + c + rest.flatten() =~= pending + chunks.flatten());
    }
}

proof fn lemma_unterminated_frames(s: Seq<u8>)
    requires
        unterminated(s),
    ensures
        frames(s) == (Seq::<Seq<u8>>::empty(), s),
{
    lemma_skip_to(s, 0, s.len() as int);
    lemma_next_terminator_found(s, s.len() as int);
}

proof fn lemma_rest_unterminated(s: Seq<u8>)
    ensures
        unterminated(frames(s).1),
    decreases s.len(),
{
    let j = next_terminator(s, 0);
    lemma_next_terminator_found(s, 0);
    if 0 <= j && j + 2 <= s.len() {
        lemma_rest_unterminated(s.subrange(j + 2, s.len() as int));
    } else {
        assert forall|k: int| !#[trigger] terminator_at(s, k) by {
            if 0 <= k && terminator_at(s, k) {
                lemma_skip_to_found(s, k);
            }
        }
    }
}

proof fn lemma_skip_to_found(s: Seq<u8>, k: int)
    requires
        terminator_at(s, k),
    ensures
        next_terminator(s, 0) <= k,
{
    lemma_next_terminator_bound(s, 0, k);
}

proof fn lemma_next_terminator_bound(s: Seq<u8>, i: int, k: int)
    requires
        0 <= i <= k,
        terminator_at(s, k),
    ensures
        next_terminator(s, i) <= k,
    decreases k - i,
{
    if i < k && !(s[i] == 13 && s[i + 1] == 10) {
        lemma_next_terminator_bound(s, i + 1, k);
    }
}

proof fn lemma_flatten_text(chunks: Seq<Seq<u8>>)
    requires
        forall|i: int| 0 <= i < chunks.len() ==> vstd::utf8::valid_utf8(#[trigger] chunks[i]),
    ensures
        vstd::utf8::valid_utf8(chunks.flatten()),
    decreases chunks.len(),
{
    broadcast use vstd::utf8::valid_utf8_concat;

    if chunks.len() == 0 {
        assert(vstd::utf8::valid_utf8(Seq::<u8>::empty()));
    } else {
        let rest = chunks.drop_first();
        assert(forall|i: int| 0 <= i < rest.len() ==> rest[i] == chunks[i + 1]);
        lemma_flatten_text(rest);
        assert(vstd::utf8::valid_utf8(chunks[0]));
    }
}

/// Each line body followed by the terminator.
pub open spec fn terminated(bodies: Seq<Seq<u8>>) -> Seq<Seq<u8>> {
    bodies.map_values(|b: Seq<u8>| b + terminator_bytes())
}

/// Carriage return and line feed.
pub open spec fn terminator_bytes() -> Seq<u8> {
    seq![13u8, 10u8]
}

/// Whether `s` holds no terminator.
pub open spec fn unterminated(s: Seq<u8>) -> bool {
    forall|k: int| !#[trigger] terminator_at(s, k)
}

/// A stream of complete lines followed by a fragment without a terminator
/// frames into exactly those lines, in order, each with its terminator, and
/// leaves exactly the fragment; an assembler with nothing buffered hands out
/// the same when the stream is text and fits.
pub proof fn lines_then_fragment(bodies: Seq<Seq<u8>>, fragment: Seq<u8>)
    requires
        forall|i: int| 0 <= i < bodies.len() ==> unterminated(#[trigger] bodies[i]),
        unterminated(fragment),
    ensures
        frames(terminated(bodies).flatten() + fragment) == (terminated(bodies), fragment),
        vstd::utf8::valid_utf8(terminated(bodies).flatten() + fragment) && terminated(
            bodies,
        ).flatten().len() + fragment.len() <= ASSEMBLY_CAPACITY ==> ingest_spec(
            Seq::empty(),
            terminated(bodies).flatten() + fragment,
        ) == (Ok::<Seq<Seq<u8>>, FrameError>(terminated(bodies)), fragment),
    decreases bodies.len(),
{
    let stream = terminated(bodies).flatten() + fragment;
    if bodies.len() == 0 {
        assert(terminated(bodies).flatten() =~= Seq::<u8>::empty());
        assert(stream =~= fragment);
        lemma_skip_to(fragment, 0, fragment.len() as int);
        lemma_next_terminator_found(fragment, fragment.len() as int);
        assert(terminated(bodies) =~= Seq::<Seq<u8>>::empty());
    } else {
        let b = bodies[0];
        let rest = bodies.drop_first();
        assert(forall|i: int| 0 <= i < rest.len() ==> rest[i] == bodies[i + 1]);
        lines_then_fragment(rest, fragment);
        assert(terminated(rest) =~= terminated(bodies).drop_first());
        assert(terminated(bodies).flatten() == terminated(bodies)[0] + terminated(
            rest,
        ).flatten());
        let tail = terminated(rest).flatten() + fragment;
        assert(stream =~= b + terminator_bytes() + tail);
        assert forall|k: int| 0 <= k < b.len() implies !terminator_at(stream, k) by {
            assert(!terminator_at(b, k));
        }
        lemma_skip_to(stream, 0, b.len() as int);
        assert(terminator_at(stream, b.len() as int));
        assert(next_terminator(stream, 0) == b.len());
        assert(stream.subrange(b.len() as int + 2, stream.len() as int) =~= tail);
        assert(stream.subrange(0, b.len() as int + 2) =~= b + terminator_bytes());
        assert(frames(stream).0 =~= terminated(bodies));
    }
    assert(Seq::<u8>::empty() + stream =~= stream);
}

/// After a chunk that is not text nothing stays buffered, so the next chunk
/// is framed exactly as by a fresh assembler.
pub proof fn decode_failure_resets(pending: Seq<u8>, bad: Seq<u8>, next: Seq<u8>)
    requires
        !vstd::utf8::valid_utf8(bad),
    ensures
        ingest_spec(pending, bad) == (Err::<Seq<Seq<u8>>, FrameError>(FrameError::Decode), Seq::<u8>::empty()),
        ingest_spec(ingest_spec(pending, bad).1, next) == ingest_spec(Seq::empty(), next),
{
}

/// Copies `data[from..to]`.
pub(crate) fn copy_range(data: &[u8], from: usize, to: usize) -> (r: Vec<u8>)
    requires
        from <= to <= data@.len(),
    ensures
        r@ == data@.subrange(from as int, to as int),
{
    let mut out: Vec<u8> = Vec::new();
    let mut i = from;
    while i < to
        invariant
            from <= i <= to <= data@.len(),
            out@ == data@.subrange(from as int, i as int),
        decreases to - i,
    {
        out.push(data[i]);
        assert(data@.subrange(from as int, i + 1) == data@.subrange(from as int, i as int).push(
            data@[i as int],
        ));
        i += 1;
    }
    out
}

/// Splits `data` into its complete sentences and the fragment after the
/// last terminator.
pub fn split_sentences(data: &[u8]) -> (r: (Vec<Vec<u8>>, Vec<u8>))
    ensures
        r.0@.map_values(|v: Vec<u8>| v@) == frames(data@).0,
        r.1@ == frames(data@).1,
{
    let mut lines: Vec<Vec<u8>> = Vec::new();
    let mut start: usize = 0;
    let mut i: usize = 0;
    let ghost len = data@.len() as int;
    assert(data@.subrange(0, len) =~= data@);
    while i < data.len() && data.len() - i > 1
        invariant
            len == data@.len(),
            start <= i <= len,
            forall|k: int| start <= k < i ==> !terminator_at(data@, k),
            frames(data@).0 == lines@.map_values(|v: Vec<u8>| v@) + frames(
                data@.subrange(start as int, len),
            ).0,
            frames(data@).1 == frames(data@.subrange(start as int, len)).1,
        decreases len - i,
    {
        if data[i] == 13 && data[i + 1] == 10 {
            let ghost t = data@.subrange(start as int, len);
            proof {
                assert forall|k: int| 0 <= k < i - start implies !terminator_at(t, k) by {
                    assert(!terminator_at(data@, k + start));
                }
                lemma_skip_to(t, 0, i - start);
                assert(terminator_at(t, i - start));
                assert(next_terminator(t, 0) == i - start);
                assert(t.subrange(i - start + 2, t.len() as int) =~= data@.subrange(
                    i + 2,
                    len,
                ));
            }
            let line = copy_range(data, start, i + 2);
            assert(line@ =~= t.subrange(0, i - start + 2));
            let ghost before = lines@;
            lines.push(line);
            assert(lines@.map_values(|v: Vec<u8>| v@) =~= before.map_values(|v: Vec<u8>| v@).push(
                line@,
            ));
            start = i + 2;
            i = i + 2;
        } else {
            i = i + 1;
        }
    }
    let ghost t = data@.subrange(start as int, len);
    proof {
        assert forall|k: int| 0 <= k < i - start implies !terminator_at(t, k) by {
            assert(!terminator_at(data@, k + start));
        }
        lemma_skip_to(t, 0, i - start);
        lemma_next_terminator_found(t, 0);
        assert(next_terminator(t, 0) == t.len());
        assert(frames(t).0 =~= Seq::<Seq<u8>>::empty());
    }
    let rest = copy_range(data, start, data.len());
    assert(lines@.map_values(|v: Vec<u8>| v@) + Seq::<Seq<u8>>::empty() =~= lines@.map_values(
        |v: Vec<u8>| v@,
    ));
    (lines, rest)
}

/// Reassembles sentences from the chunks that a serial link delivers.
pub struct FrameAssembler {
    buffer: heapless::Vec<u8, 512>,
}

impl FrameAssembler {
    /// The bytes received so far that do not yet form a complete sentence.
    pub closed spec fn pending(&self) -> Seq<u8> {
        buffered_bytes(self.buffer)
    }

    /// An assembler with nothing buffered.
    pub fn new() -> (r: FrameAssembler)
        ensures
            r.pending() == Seq::<u8>::empty(),
    {
        FrameAssembler { buffer: buffer_new() }
    }

    /// The bytes waiting for a terminator.
    pub fn pending_bytes(&self) -> (r: Vec<u8>)
        ensures
            r@ == self.pending(),
    {
        let data = buffer_as_slice(&self.buffer);
        copy_range(data, 0, data.len())
    }

    /// Feeds one chunk. A chunk that is not UTF-8 text, or that would
    /// overflow the buffer, discards everything buffered and gives an error.
    /// Otherwise the chunk is appended and every complete sentence is handed
    /// out in order; what follows the last terminator stays buffered.
    pub fn ingest(&mut self, chunk: &[u8]) -> (r: Result<Lines, FrameError>)
        ensures
            final(self).pending() == ingest_spec(old(self).pending(), chunk@).1,
            unterminated(final(self).pending()),
            match r {
                Ok(lines) => ingest_spec(old(self).pending(), chunk@).0 == Ok::<
                    Seq<Seq<u8>>,
                    FrameError,
                >(lines.sentences_view()) && match lines.partial_sentence {
                    Some(p) => p@ == final(self).pending() && p@.len() > 0,
                    None => final(self).pending().len() == 0,
                },
                Err(e) => ingest_spec(old(self).pending(), chunk@).0 == Err::<
                    Seq<Seq<u8>>,
                    FrameError,
                >(e),
            },
    {
        if !is_text(chunk) {
            buffer_clear(&mut self.buffer);
            return Err(FrameError::Decode);
        }
        if buffer_extend(&mut self.buffer, chunk).is_err() {
            buffer_clear(&mut self.buffer);
            return Err(FrameError::Overflow);
        }
        let (sentences, rest) = split_sentences(buffer_as_slice(&self.buffer));
        proof {
            lemma_frames_rest_len(buffered_bytes(self.buffer));
            lemma_rest_unterminated(buffered_bytes(self.buffer));
        }
        if sentences.len() > 0 {
            buffer_clear(&mut self.buffer);
            let ok = buffer_extend(&mut self.buffer, rest.as_slice());
            assert(ok is Ok);
        }
        assert(self.pending() =~= rest@) by {
            if sentences.len() == 0 {
                assert(sentences@.map_values(|v: Vec<u8>| v@).len() == 0);
                assert(frames(buffered_bytes(self.buffer)).1 == buffered_bytes(self.buffer)) by {
                    let s = buffered_bytes(self.buffer);
                    lemma_next_terminator_found(s, 0);
                    if next_terminator(s, 0) < s.len() {
                        assert(frames(s).0.len() > 0);
                    }
                }
            }
        }
        let partial_sentence = if rest.len() > 0 {
            Some(rest)
        } else {
            None
        };
        Ok(Lines { sentences, partial_sentence })
    }
}

} // verus!
