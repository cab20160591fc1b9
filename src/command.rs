//! Outbound configuration commands for the receiver and their wire encoding.
use vstd::prelude::*;
use vstd::string::StringSliceAdditionalSpecFns;

verus! {

/// How the checksum field after `*` is rendered.
#[derive(Clone, Copy, PartialEq, Eq, Debug)]
pub enum ChecksumFormat {
    /// The checksum byte as a decimal number without padding (`*56`).
    Decimal,
    /// The checksum byte as two uppercase hexadecimal digits (`*38`), the form
    /// that NMEA 0183 receivers check.
    Hex,
}

/// The checksum rendering used by [`GnssMessage::to_nmea_sentence`].
///
/// Receivers compare the field with two hexadecimal digits, so that is the
/// default; [`GnssMessage::to_nmea_sentence_with`] can still render the
/// decimal form that early firmware of this project sent.
pub const CHECKSUM_FORMAT: ChecksumFormat = ChecksumFormat::Hex;

/// A configuration command sent to the receiver.
#[derive(Clone, Copy, PartialEq, Eq, Debug)]
pub enum GnssMessage {
    /// `$PAIR864`: sets the baud rate of one of the receiver's serial ports.
    SetBaudrate { port_type: u8, port_index: u8, baudrate: u32 },
    /// `$PAIR066`: chooses which satellite constellations are searched.
    EnableGnssProviders { gps: bool, glonass: bool, galileo: bool, bds: bool, qzss: bool },
}

/// The bytes of an ASCII text.
pub open spec fn ascii_of(s: Seq<char>) -> Seq<u8> {
    Seq::new(s.len(), |i: int| s[i] as u8)
}

/// The decimal digits of `n`, most significant first, without leading zeros.
pub open spec fn decimal_digits(n: nat) -> Seq<u8>
    decreases n,
{
    if n < 10 {
        seq![(48 + n) as u8]
    } else {
        decimal_digits(n / 10).push((48 + n % 10) as u8)
    }
}

/// `1` for an enabled constellation, `0` for a disabled one.
pub open spec fn flag_digit(on: bool) -> Seq<u8> {
    if on {
        seq![49u8]
    } else {
        seq![48u8]
    }
}

/// The uppercase hexadecimal digit of a value below 16.
pub open spec fn hex_digit(n: u8) -> u8 {
    if n < 10 {
        (48 + n) as u8
    } else {
        (55 + n) as u8
    }
}

/// Two uppercase hexadecimal digits for one byte.
pub open spec fn hex_pair(b: u8) -> Seq<u8> {
    seq![hex_digit(b / 16), hex_digit(b % 16)]
}

/// Exclusive-or of all bytes of `s`.
pub open spec fn xor_fold(s: Seq<u8>) -> u8
    decreases s.len(),
{
    if s.len() == 0 {
        0
    } else {
        xor_fold(s.drop_last()) ^ s.last()
    }
}

/// The checksum of a sentence body: the exclusive-or of every byte after the
/// leading `$`.
pub open spec fn checksum_of(body: Seq<u8>) -> u8 {
    if body.len() == 0 {
        0
    } else {
        xor_fold(body.subrange(1, body.len() as int))
    }
}

/// The checksum field in the chosen rendering.
pub open spec fn render_checksum(c: u8, format: ChecksumFormat) -> Seq<u8> {
    match format {
        ChecksumFormat::Decimal => decimal_digits(c as nat),
        ChecksumFormat::Hex => hex_pair(c),
    }
}

/// Carriage return and line feed.
pub open spec fn terminator() -> Seq<u8> {
    seq![13u8, 10u8]
}

impl GnssMessage {
    /// The sentence up to, not including, the checksum delimiter.
    pub open spec fn body_spec(self) -> Seq<u8> {
        match self {
            GnssMessage::SetBaudrate { port_type, port_index, baudrate } => ascii_of("$PAIR864,"@)
                + decimal_digits(port_type as nat) + ascii_of(","@) + decimal_digits(
                port_index as nat,
            ) + ascii_of(","@) + decimal_digits(baudrate as nat),
            GnssMessage::EnableGnssProviders { gps, glonass, galileo, bds, qzss } => ascii_of(
                "$PAIR066,"@,
            ) + flag_digit(gps) + ascii_of(","@) + flag_digit(glonass) + ascii_of(","@)
                + flag_digit(galileo) + ascii_of(","@) + flag_digit(bds) + ascii_of(","@)
                + flag_digit(qzss) + ascii_of(",0"@),
        }
    }

    /// The whole wire sentence: body, `*`, checksum, terminator.
    pub open spec fn sentence_spec(self, format: ChecksumFormat) -> Seq<u8> {
        self.body_spec() + seq![42u8] + render_checksum(checksum_of(self.body_spec()), format)
            + terminator()
    }
}

proof fn lemma_decimal_digits_are_digits(n: nat)
    ensures
        forall|i: int| 0 <= i < decimal_digits(n).len() ==> 48 <= #[trigger] decimal_digits(n)[i] <= 57,
        decimal_digits(n).len() >= 1,
    decreases n,
{
    if n >= 10 {
        lemma_decimal_digits_are_digits(n / 10);
    }
}

/// Whether `s` holds no checksum delimiter.
pub open spec fn no_delimiter(s: Seq<u8>) -> bool {
    forall|i: int| 0 <= i < s.len() ==> #[trigger] s[i] != 42
}

proof fn lemma_body_has_no_delimiter(m: GnssMessage)
    ensures
        no_delimiter(m.body_spec()),
        m.body_spec().len() >= 1,
        m.body_spec()[0] == 36,
{
    reveal_strlit("$PAIR864,");
    reveal_strlit("$PAIR066,");
    reveal_strlit(",");
    reveal_strlit(",0");
    match m {
        GnssMessage::SetBaudrate { port_type, port_index, baudrate } => {
            lemma_decimal_digits_are_digits(port_type as nat);
            lemma_decimal_digits_are_digits(port_index as nat);
            lemma_decimal_digits_are_digits(baudrate as nat);
        },
        GnssMessage::EnableGnssProviders { .. } => {},
    }
    let b = m.body_spec();
    assert(no_delimiter(ascii_of("$PAIR864,"@)));
    assert(no_delimiter(ascii_of("$PAIR066,"@)));
    assert(no_delimiter(ascii_of(","@)));
    assert(no_delimiter(ascii_of(",0"@)));
    assert forall|x: Seq<u8>, y: Seq<u8>| no_delimiter(x) && no_delimiter(y) implies #[trigger] no_delimiter(
        x + y,
    ) by {
        assert forall|i: int| 0 <= i < (x + y).len() implies (x + y)[i] != 42 by {
            if i < x.len() {
                assert((x + y)[i] == x[i]);
            } else {
                assert((x + y)[i] == y[i - x.len()]);
            }
        }
    }
    assert(no_delimiter(flag_digit(true)));
    assert(no_delimiter(flag_digit(false)));
}

/// The checksum field of every encoded command is the exclusive-or of all
/// bytes strictly between the leading `$` and the single `*` delimiter,
/// rendered as the format says, and the sentence ends with the terminator.
pub proof fn checksum_covers_body(m: GnssMessage, format: ChecksumFormat)
    ensures
        ({
            let s = m.sentence_spec(format);
            let k = m.body_spec().len() as int;
            &&& s[0] == 36
            &&& s[k] == 42
            &&& no_delimiter(s.subrange(0, k))
            &&& s.subrange(k + 1, s.len() - 2) == render_checksum(
                xor_fold(s.subrange(1, k)),
                format,
            )
            &&& s.subrange(s.len() - 2, s.len() as int) == terminator()
        }),
{
    lemma_body_has_no_delimiter(m);
    let b = m.body_spec();
    let s = m.sentence_spec(format);
    let k = b.len() as int;
    let c = render_checksum(checksum_of(b), format);
    assert(s =~= b + seq![42u8] + c + terminator());
    assert(s.subrange(0, k) =~= b);
    assert(s.subrange(1, k) =~= b.subrange(1, k));
    assert(s.subrange(k + 1, s.len() - 2) =~= c);
    assert(s.subrange(s.len() - 2, s.len() as int) =~= terminator());
}

/// Encoding the same command twice, in the same format, gives the same bytes.
pub proof fn encoding_is_deterministic(a: GnssMessage, b: GnssMessage, format: ChecksumFormat)
    requires
        a == b,
    ensures
        a.sentence_spec(format) == b.sentence_spec(format),
{
}

/// Appends the bytes of an ASCII text to `out`.
fn push_text(out: &mut Vec<u8>, text: &str)
    requires
        text.is_ascii(),
    ensures
        final(out)@ == old(out)@ + ascii_of(text@),
{
    broadcast use vstd::string::group_string_axioms;

    let bytes = text.as_bytes();
    proof {
        vstd::string::is_ascii_spec_bytes(text);
    }
    assert(bytes@ =~= ascii_of(text@));
    let mut i: usize = 0;
    while i < bytes.len()
        invariant
            bytes@ == ascii_of(text@),
            0 <= i <= bytes@.len(),
            out@ == old(out)@ + bytes@.subrange(0, i as int),
        decreases bytes@.len() - i,
    {
        out.push(bytes[i]);
        assert(bytes@.subrange(0, i + 1) == bytes@.subrange(0, i as int).push(bytes@[i as int]));
        i += 1;
    }
    assert(bytes@.subrange(0, bytes@.len() as int) == bytes@);
}

/// Appends the decimal digits of `n`.
fn push_decimal(out: &mut Vec<u8>, n: u32)
    ensures
        final(out)@ == old(out)@ + decimal_digits(n as nat),
    decreases n,
{
    if n >= 10 {
        push_decimal(out, n / 10);
    }
    out.push(48 + (n % 10) as u8);
    assert(out@ =~= old(out)@ + decimal_digits(n as nat));
}

/// Appends `1` or `0`.
fn push_flag(out: &mut Vec<u8>, on: bool)
    ensures
        final(out)@ == old(out)@ + flag_digit(on),
{
    if on {
        out.push(49);
    } else {
        out.push(48);
    }
    assert(out@ =~= old(out)@ + flag_digit(on));
}

fn hex_digit_exec(n: u8) -> (r: u8)
    requires
        n < 16,
    ensures
        r == hex_digit(n),
{
    if n < 10 {
        48 + n
    } else {
        55 + n
    }
}

/// The checksum of a sentence body: the exclusive-or of every byte after the
/// leading `$` (of every byte but the first).
pub fn nmea_checksum(body: &[u8]) -> (r: u8)
    ensures
        r == checksum_of(body@),
{
    if body.len() == 0 {
        return 0;
    }
    let mut c: u8 = 0;
    let mut i: usize = 1;
    assert(body@.subrange(1, 1) =~= Seq::<u8>::empty());
    while i < body.len()
        invariant
            1 <= i <= body@.len(),
            c == xor_fold(body@.subrange(1, i as int)),
        decreases body@.len() - i,
    {
        assert(body@.subrange(1, i + 1).drop_last() =~= body@.subrange(1, i as int));
        c = c ^ body[i];
        i += 1;
    }
    c
}

impl GnssMessage {
    /// Sets UART 0 to 115200 baud.
    pub fn uart0_at_115200() -> (r: GnssMessage)
        ensures
            r == (GnssMessage::SetBaudrate { port_type: 0, port_index: 0, baudrate: 115200 }),
    {
        GnssMessage::SetBaudrate { port_type: 0, port_index: 0, baudrate: 115200 }
    }

    /// Searches for GPS, GLONASS, Galileo, BDS and QZSS satellites.
    pub fn enable_all_providers() -> (r: GnssMessage)
        ensures
            r == (GnssMessage::EnableGnssProviders {
                gps: true,
                glonass: true,
                galileo: true,
                bds: true,
                qzss: true,
            }),
    {
        GnssMessage::EnableGnssProviders {
            gps: true,
            glonass: true,
            galileo: true,
            bds: true,
            qzss: true,
        }
    }

    /// The sentence before the checksum delimiter, e.g. `$PAIR066,1,1,1,1,1,0`.
    pub fn body(&self) -> (r: Vec<u8>)
        ensures
            r@ == self.body_spec(),
    {
        let mut out: Vec<u8> = Vec::new();
        proof {
            reveal_strlit("$PAIR864,");
            reveal_strlit("$PAIR066,");
            reveal_strlit(",");
            reveal_strlit(",0");
        }
        match *self {
            GnssMessage::SetBaudrate { port_type, port_index, baudrate } => {
                push_text(&mut out, "$PAIR864,");
                push_decimal(&mut out, port_type as u32);
                push_text(&mut out, ",");
                push_decimal(&mut out, port_index as u32);
                push_text(&mut out, ",");
                push_decimal(&mut out, baudrate);
            },
            GnssMessage::EnableGnssProviders { gps, glonass, galileo, bds, qzss } => {
                push_text(&mut out, "$PAIR066,");
                push_flag(&mut out, gps);
                push_text(&mut out, ",");
                push_flag(&mut out, glonass);
                push_text(&mut out, ",");
                push_flag(&mut out, galileo);
                push_text(&mut out, ",");
                push_flag(&mut out, bds);
                push_text(&mut out, ",");
                push_flag(&mut out, qzss);
                push_text(&mut out, ",0");
            },
        }
        assert(out@ =~= self.body_spec());
        out
    }

    /// The wire sentence with the checksum rendered as `format` says.
    pub fn to_nmea_sentence_with(&self, format: ChecksumFormat) -> (r: Vec<u8>)
        ensures
            r@ == self.sentence_spec(format),
    {
        let mut out = self.body();
        let c = nmea_checksum(out.as_slice());
        out.push(42);
        match format {
            ChecksumFormat::Decimal => push_decimal(&mut out, c as u32),
            ChecksumFormat::Hex => {
                out.push(hex_digit_exec(c / 16));
                out.push(hex_digit_exec(c % 16));
            },
        }
        out.push(13);
        out.push(10);
        assert(out@ =~= self.sentence_spec(format));
        out
    }

    /// The wire sentence, with the checksum rendered as [`CHECKSUM_FORMAT`] says.
    pub fn to_nmea_sentence(&self) -> (r: Vec<u8>)
        ensures
            r@ == self.sentence_spec(CHECKSUM_FORMAT),
    {
        self.to_nmea_sentence_with(CHECKSUM_FORMAT)
    }
}

} // verus!
