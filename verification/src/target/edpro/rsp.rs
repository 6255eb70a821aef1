//! GDB remote serial protocol: packets, commands and replies.
//!
//! A packet is `$<payload>#<checksum>`; the checksum is the exclusive or of the
//! escaped payload bytes in two lower-case hex digits. The bytes `#`, `$`, `}`
//! and `*` are escaped with `}`. Decoding also expands runs: `X*n` stands for
//! `n - 28` times `X`. Encoding never makes runs.

use crate::emulator::memory::push_all;
use crate::text::{debug_form, debug_text, dec, hex, lower, lower_hex, push_dec, utf8_text};
use vstd::prelude::*;
use vstd::slice::slice_subrange;
use vstd::string::*;
use vstd::utf8::*;

verus! {

/// Why a packet or a reply was not understood.
#[derive(Debug)]
pub enum RspError {
    /// No `$` in the input.
    NoPacketStart,
    /// No `#` and checksum behind the `$`.
    UnterminatedPacket,
    BadChecksum { got: u8, expected: u8 },
    /// An escape or a run that is cut short or has nothing to repeat.
    BadEscape,
    BadHex,
    /// A reply of another shape.
    UnexpectedReply(String),
}

impl RspError {
    /// The error's message.
    pub open spec fn text(self) -> Seq<char> {
        match self {
            RspError::NoPacketStart => "no '$' packet start in input"@,
            RspError::UnterminatedPacket => "packet missing '#xx' terminator"@,
            RspError::BadChecksum { got, expected } => "bad checksum: got 0x"@ + lower(
                hex(got as nat, 2),
            ) + ", expected 0x"@ + lower(hex(expected as nat, 2)),
            RspError::BadEscape => "malformed '}' escape sequence"@,
            RspError::BadHex => "malformed hex string"@,
            RspError::UnexpectedReply(s) => "unexpected reply: "@ + s@,
        }
    }

    /// The error's message.
    pub fn message(&self) -> (r: String)
        ensures
            r@ == self.text(),
    {
        match self {
            RspError::NoPacketStart => "no '$' packet start in input".to_owned(),
            RspError::UnterminatedPacket => "packet missing '#xx' terminator".to_owned(),
            RspError::BadChecksum { got, expected } => {
                let mut m = "bad checksum: got 0x".to_owned();
                m.append(lower_hex(*got as u64, 2).as_str());
                m.append(", expected 0x");
                m.append(lower_hex(*expected as u64, 2).as_str());
                m
            },
            RspError::BadEscape => "malformed '}' escape sequence".to_owned(),
            RspError::BadHex => "malformed hex string".to_owned(),
            RspError::UnexpectedReply(s) => {
                let mut m = "unexpected reply: ".to_owned();
                m.append(s.as_str());
                m
            },
        }
    }
}

/// A single-byte acknowledgement.
#[derive(Debug, Clone, Copy, PartialEq, Eq, Structural)]
pub enum AckByte {
    Accept,
    Retransmit,
}

/// `+` or `-`.
pub fn encode_ack(a: AckByte) -> (r: u8)
    ensures
        r == match a {
            AckByte::Accept => 43u8,
            AckByte::Retransmit => 45u8,
        },
{
    match a {
        AckByte::Accept => 43,
        AckByte::Retransmit => 45,
    }
}

/// Recognises `+` and `-`.
pub fn try_parse_ack(b: u8) -> (r: Option<AckByte>)
    ensures
        r == if b == 43 {
            Some(AckByte::Accept)
        } else if b == 45 {
            Some(AckByte::Retransmit)
        } else {
            None
        },
{
    if b == 43 {
        Some(AckByte::Accept)
    } else if b == 45 {
        Some(AckByte::Retransmit)
    } else {
        None
    }
}

/// A lower-case hex digit as a byte.
pub open spec fn digit(d: int) -> u8 {
    if d < 10 {
        (48 + d) as u8
    } else {
        (87 + d) as u8
    }
}

/// The value of a hex digit of either case.
pub open spec fn nibble(c: u8) -> Option<u8> {
    if 48 <= c <= 57 {
        Some((c - 48) as u8)
    } else if 97 <= c <= 102 {
        Some((c - 87) as u8)
    } else if 65 <= c <= 70 {
        Some((c - 55) as u8)
    } else {
        None
    }
}

/// Two hex digits.
pub open spec fn hex_pair(b: u8) -> Seq<u8> {
    seq![digit(b as int / 16), digit(b as int % 16)]
}

/// Two hex digits for each byte.
pub open spec fn hex_all(s: Seq<u8>) -> Seq<u8> {
    Seq::new(
        2 * s.len(),
        |i: int|
            if i % 2 == 0 {
                digit(s[i / 2] as int / 16)
            } else {
                digit(s[i / 2] as int % 16)
            },
    )
}

/// A number in hex, without leading zeros.
pub open spec fn hex_number(n: nat) -> Seq<u8>
    decreases n,
{
    if n < 16 {
        seq![digit(n as int)]
    } else {
        hex_number(n / 16).push(digit((n % 16) as int))
    }
}

/// Whether `s` is pairs of hex digits.
pub open spec fn is_hex(s: Seq<u8>) -> bool {
    s.len() % 2 == 0 && forall|i: int| 0 <= i < s.len() ==> (#[trigger] nibble(s[i])) is Some
}

/// The bytes that pairs of hex digits stand for.
pub open spec fn unhex(s: Seq<u8>) -> Seq<u8> {
    Seq::new(
        s.len() / 2,
        |i: int| (16 * nibble(s[2 * i])->0 + nibble(s[2 * i + 1])->0) as u8,
    )
}

fn hex_digit_byte(d: u8) -> (r: u8)
    requires
        d < 16,
    ensures
        r == digit(d as int),
{
    if d < 10 {
        48 + d
    } else {
        87 + d
    }
}

/// Appends two hex digits.
pub fn push_hex_byte(out: &mut Vec<u8>, b: u8)
    ensures
        final(out)@ == old(out)@ + hex_pair(b),
{
    out.push(hex_digit_byte(b / 16));
    out.push(hex_digit_byte(b % 16));
    proof {
        assert(out@ =~= old(out)@ + hex_pair(b));
    }
}

/// Appends two hex digits for each byte.
fn push_hex_bytes(out: &mut Vec<u8>, data: &[u8])
    ensures
        final(out)@ == old(out)@ + hex_all(data@),
{
    let ghost head = out@;
    let mut i: usize = 0;
    while i < data.len()
        invariant
            i <= data@.len(),
            out@ == head + hex_all(data@.take(i as int)),
        decreases data@.len() - i,
    {
        push_hex_byte(out, data[i]);
        i += 1;
        proof {
            assert(out@ =~= head + hex_all(data@.take(i as int)));
        }
    }
    proof {
        assert(data@.take(data@.len() as int) =~= data@);
    }
}

/// Appends a number in hex, without leading zeros.
pub fn push_hex_u32(out: &mut Vec<u8>, v: u32)
    ensures
        final(out)@ == old(out)@ + hex_number(v as nat),
    decreases v,
{
    if v >= 16 {
        push_hex_u32(out, v / 16);
    }
    out.push(hex_digit_byte((v % 16) as u8));
    proof {
        assert(out@ =~= old(out)@ + hex_number(v as nat));
    }
}

/// The value of a hex digit.
pub fn hex_nibble(c: u8) -> (r: Option<u8>)
    ensures
        r == nibble(c),
        r matches Some(n) ==> n < 16,
{
    if 48 <= c && c <= 57 {
        Some(c - 48)
    } else if 97 <= c && c <= 102 {
        Some(c - 87)
    } else if 65 <= c && c <= 70 {
        Some(c - 55)
    } else {
        None
    }
}

/// Decodes pairs of hex digits.
pub fn parse_hex_bytes(payload: &[u8]) -> (r: Result<Vec<u8>, RspError>)
    ensures
        match r {
            Ok(v) => is_hex(payload@) && v@ == unhex(payload@),
            Err(e) => !is_hex(payload@) && e is BadHex,
        },
{
    if payload.len() % 2 != 0 {
        return Err(RspError::BadHex);
    }
    let mut out: Vec<u8> = Vec::new();
    let len: usize = payload.len();
    let n: usize = len / 2;
    let mut i: usize = 0;
    while i < n
        invariant
            i <= n,
            len == payload@.len(),
            len == 2 * n,
            forall|j: int| 0 <= j < 2 * i ==> (#[trigger] nibble(payload@[j])) is Some,
            out@ == unhex(payload@).take(i as int),
        decreases n - i,
    {
        match (hex_nibble(payload[2 * i]), hex_nibble(payload[2 * i + 1])) {
            (Some(hi), Some(lo)) => {
                out.push(16 * hi + lo);
            },
            _ => {
                proof {
                    assert(nibble(payload@[2 * i]) is None || nibble(payload@[2 * i + 1]) is None);
                }
                return Err(RspError::BadHex);
            },
        }
        i += 1;
        proof {
            assert(out@ =~= unhex(payload@).take(i as int));
        }
    }
    proof {
        assert(out@ =~= unhex(payload@));
    }
    Ok(out)
}

/// Decoding what was encoded in hex gives it back.
pub proof fn law_hex_round_trip(s: Seq<u8>)
    ensures
        is_hex(hex_all(s)),
        unhex(hex_all(s)) == s,
{
    let h = hex_all(s);
    assert forall|i: int| 0 <= i < h.len() implies (#[trigger] nibble(h[i])) is Some by {
        let b = s[i / 2] as int;
        assert(0 <= b / 16 < 16 && 0 <= b % 16 < 16);
    }
    assert forall|i: int| 0 <= i < s.len() implies #[trigger] unhex(h)[i] == s[i] by {
        let b = s[i] as int;
        assert((2 * i) % 2 == 0 && (2 * i) / 2 == i);
        assert((2 * i + 1) % 2 == 1 && (2 * i + 1) / 2 == i);
        assert(nibble(h[2 * i]) == Some((b / 16) as u8));
        assert(nibble(h[2 * i + 1]) == Some((b % 16) as u8));
    }
    assert(unhex(h) =~= s);
}

/// The exclusive or of all bytes.
pub open spec fn xor_sum(s: Seq<u8>) -> u8
    decreases s.len(),
{
    if s.len() == 0 {
        0
    } else {
        xor_sum(s.drop_last()) ^ s.last()
    }
}

/// Whether a byte has to be escaped: `#`, `$`, `}` or `*`.
pub open spec fn special(b: u8) -> bool {
    b == 35 || b == 36 || b == 125 || b == 42
}

/// A byte as it goes on the wire.
pub open spec fn escaped_byte(b: u8) -> Seq<u8> {
    if special(b) {
        seq![125u8, b ^ 0x20]
    } else {
        seq![b]
    }
}

/// A payload as it goes on the wire.
pub open spec fn escaped(p: Seq<u8>) -> Seq<u8>
    decreases p.len(),
{
    if p.len() == 0 {
        seq![]
    } else {
        escaped_byte(p[0]) + escaped(p.drop_first())
    }
}

/// The packet of a payload.
pub open spec fn packet(p: Seq<u8>) -> Seq<u8> {
    seq![36u8] + escaped(p) + seq![35u8] + hex_pair(xor_sum(escaped(p)))
}

/// The exclusive or of all bytes.
pub fn xor_checksum(payload: &[u8]) -> (r: u8)
    ensures
        r == xor_sum(payload@),
{
    let mut c: u8 = 0;
    let mut i: usize = 0;
    while i < payload.len()
        invariant
            i <= payload@.len(),
            c == xor_sum(payload@.take(i as int)),
        decreases payload@.len() - i,
    {
        proof {
            assert(payload@.take(i + 1).drop_last() =~= payload@.take(i as int));
        }
        c = c ^ payload[i];
        i += 1;
    }
    proof {
        assert(payload@.take(payload@.len() as int) =~= payload@);
    }
    c
}

/// Escapes a payload.
pub fn escape_payload(payload: &[u8]) -> (r: Vec<u8>)
    ensures
        r@ == escaped(payload@),
{
    let mut out: Vec<u8> = Vec::new();
    let mut i: usize = 0;
    proof {
        assert(payload@.skip(0) =~= payload@);
        assert(out@ + escaped(payload@) =~= escaped(payload@));
    }
    while i < payload.len()
        invariant
            i <= payload@.len(),
            out@ + escaped(payload@.skip(i as int)) == escaped(payload@),
        decreases payload@.len() - i,
    {
        let b: u8 = payload[i];
        let ghost before = out@;
        proof {
            assert(payload@.skip(i as int).drop_first() =~= payload@.skip(i + 1));
        }
        if b == 35 || b == 36 || b == 125 || b == 42 {
            out.push(125);
            out.push(b ^ 0x20);
        } else {
            out.push(b);
        }
        i += 1;
        proof {
            assert(out@ =~= before + escaped_byte(b));
            assert(out@ + escaped(payload@.skip(i as int)) =~= before + (escaped_byte(b) + escaped(
                payload@.skip(i as int),
            )));
        }
    }
    proof {
        assert(out@ =~= out@ + escaped(payload@.skip(i as int)));
    }
    out
}

/// Builds the packet of a payload.
pub fn encode_packet(payload: &[u8]) -> (r: Vec<u8>)
    ensures
        r@ == packet(payload@),
{
    let body = escape_payload(payload);
    let csum: u8 = xor_checksum(body.as_slice());
    let mut out: Vec<u8> = Vec::new();
    out.push(36);
    push_all(&mut out, body.as_slice());
    out.push(35);
    push_hex_byte(&mut out, csum);
    proof {
        assert(out@ =~= packet(payload@));
    }
    out
}

/// The first place of `b` in `s` at or behind `from`; the length of `s` when
/// there is none.
pub open spec fn place_of(s: Seq<u8>, b: u8, from: int) -> int
    decreases s.len() - from,
{
    if from >= s.len() {
        s.len() as int
    } else if s[from] == b {
        from
    } else {
        place_of(s, b, from + 1)
    }
}

/// Where the first `b` at or behind `from` is, when none stands before `at`.
pub proof fn lemma_place_of(s: Seq<u8>, b: u8, from: int, at: int)
    requires
        0 <= from <= at <= s.len(),
        forall|i: int| from <= i < at ==> s[i] != b,
    ensures
        at == s.len() ==> place_of(s, b, from) == s.len(),
        at < s.len() && s[at] == b ==> place_of(s, b, from) == at,
        at < s.len() && s[at] != b ==> place_of(s, b, from) == place_of(s, b, at + 1),
    decreases at - from,
{
    if from < at {
        lemma_place_of(s, b, from + 1, at);
    }
}

proof fn lemma_place_range(s: Seq<u8>, b: u8, from: int)
    requires
        0 <= from <= s.len(),
    ensures
        from <= place_of(s, b, from) <= s.len(),
        place_of(s, b, from) < s.len() ==> s[place_of(s, b, from)] == b,
    decreases s.len() - from,
{
    if from < s.len() && s[from] != b {
        lemma_place_range(s, b, from + 1);
    }
}

fn find_byte(s: &[u8], b: u8, from: usize) -> (r: usize)
    requires
        from <= s@.len(),
    ensures
        r == place_of(s@, b, from as int),
        from <= r <= s@.len(),
{
    let mut i: usize = from;
    while i < s.len() && s[i] != b
        invariant
            from <= i <= s@.len(),
            forall|j: int| from <= j < i ==> s@[j] != b,
        decreases s@.len() - i,
    {
        i += 1;
    }
    proof {
        lemma_place_of(s@, b, from as int, i as int);
    }
    i
}

/// `n` times `b`.
pub open spec fn repeated(b: u8, n: int) -> Seq<u8> {
    Seq::new(n as nat, |i: int| b)
}

/// `out` followed by what the wire bytes `raw` stand for. `None` when an escape
/// or a run is cut short, has nothing to repeat or a count below 29.
pub open spec fn unescaped(raw: Seq<u8>, out: Seq<u8>) -> Option<Seq<u8>>
    decreases raw.len(),
{
    if raw.len() == 0 {
        Some(out)
    } else if raw[0] == 125 {
        if raw.len() < 2 {
            None
        } else {
            unescaped(raw.skip(2), out.push(raw[1] ^ 0x20))
        }
    } else if raw[0] == 42 {
        if out.len() == 0 || raw.len() < 2 || raw[1] < 29 {
            None
        } else {
            unescaped(raw.skip(2), out + repeated(out.last(), raw[1] - 29))
        }
    } else {
        unescaped(raw.skip(1), out.push(raw[0]))
    }
}

/// What decoding gives.
pub open spec fn decode_result(input: Seq<u8>, r: Result<(Vec<u8>, usize), RspError>) -> bool {
    let start = place_of(input, 36, 0);
    let hash = place_of(input, 35, start + 1);
    if start >= input.len() {
        r matches Err(RspError::NoPacketStart)
    } else if hash + 2 >= input.len() {
        r matches Err(RspError::UnterminatedPacket)
    } else {
        let raw = input.subrange(start + 1, hash);
        match (nibble(input[hash + 1]), nibble(input[hash + 2])) {
            (Some(hi), Some(lo)) => if 16 * hi + lo != xor_sum(raw) {
                r matches Err(RspError::BadChecksum { got, expected }) && got == 16 * hi + lo
                    && expected == xor_sum(raw)
            } else {
                match unescaped(raw, seq![]) {
                    None => r matches Err(RspError::BadEscape),
                    Some(p) => r matches Ok(v) && v.0@ == p && v.1 == hash + 3,
                }
            },
            _ => r matches Err(RspError::BadHex),
        }
    }
}

fn unescape(raw: &[u8]) -> (r: Option<Vec<u8>>)
    ensures
        r is Some <==> unescaped(raw@, seq![]) is Some,
        r matches Some(v) ==> v@ == unescaped(raw@, seq![])->0,
{
    let mut out: Vec<u8> = Vec::new();
    let mut i: usize = 0;
    let ghost goal = unescaped(raw@, seq![]);
    proof {
        assert(raw@.skip(0) =~= raw@);
        assert(out@ =~= seq![]);
    }
    while i < raw.len()
        invariant
            i <= raw@.len(),
            goal == unescaped(raw@, seq![]),
            unescaped(raw@.skip(i as int), out@) == goal,
        decreases raw@.len() - i,
    {
        let b: u8 = raw[i];
        let left: usize = raw.len() - i;
        let ghost rest = raw@.skip(i as int);
        proof {
            assert(rest[0] == b);
        }
        if b == 125 {
            if left < 2 {
                return None;
            }
            proof {
                assert(rest[1] == raw@[i + 1]);
                assert(rest.skip(2) =~= raw@.skip(i + 2));
            }
            out.push(raw[i + 1] ^ 0x20);
            i += 2;
        } else if b == 42 {
            if out.len() == 0 || left < 2 {
                return None;
            }
            proof {
                assert(rest[1] == raw@[i + 1]);
                assert(rest.skip(2) =~= raw@.skip(i + 2));
            }
            let count: u8 = raw[i + 1];
            if count < 29 {
                return None;
            }
            let extra: u8 = count - 29;
            let last: u8 = out[out.len() - 1];
            let ghost before = out@;
            let mut k: u8 = 0;
            while k < extra
                invariant
                    k <= extra,
                    out@ == before + repeated(last, k as int),
                decreases extra - k,
            {
                out.push(last);
                k += 1;
                proof {
                    assert(out@ =~= before + repeated(last, k as int));
                }
            }
            i += 2;
        } else {
            proof {
                assert(rest.skip(1) =~= raw@.skip(i + 1));
            }
            out.push(b);
            i += 1;
        }
    }
    Some(out)
}

/// Decodes the first packet in `input`; bytes before its `$` are skipped. Gives
/// the payload and how many input bytes were used.
pub fn decode_packet(input: &[u8]) -> (r: Result<(Vec<u8>, usize), RspError>)
    ensures
        decode_result(input@, r),
{
    let start: usize = find_byte(input, 36, 0);
    if start >= input.len() {
        return Err(RspError::NoPacketStart);
    }
    let hash: usize = find_byte(input, 35, start + 1);
    if input.len() - hash <= 2 {
        return Err(RspError::UnterminatedPacket);
    }
    let raw = slice_subrange(input, start + 1, hash);
    let expected: u8 = xor_checksum(raw);
    let got: u8 = match (hex_nibble(input[hash + 1]), hex_nibble(input[hash + 2])) {
        (Some(hi), Some(lo)) => 16 * hi + lo,
        _ => {
            return Err(RspError::BadHex);
        },
    };
    if got != expected {
        return Err(RspError::BadChecksum { got, expected });
    }
    match unescape(raw) {
        None => Err(RspError::BadEscape),
        Some(p) => Ok((p, hash + 3)),
    }
}

proof fn lemma_unescape_escaped(p: Seq<u8>, out: Seq<u8>)
    ensures
        unescaped(escaped(p), out) == Some(out + p),
    decreases p.len(),
{
    if p.len() == 0 {
        assert(out + p =~= out);
    } else {
        let b = p[0];
        let tail = escaped(p.drop_first());
        let raw = escaped(p);
        lemma_unescape_escaped(p.drop_first(), out.push(b));
        assert(out.push(b) + p.drop_first() =~= out + p);
        if special(b) {
            assert(raw[0] == 125);
            assert(raw[1] == b ^ 0x20);
            assert(raw.skip(2) =~= tail);
            assert((b ^ 0x20) ^ 0x20 == b) by (bit_vector);
        } else {
            assert(raw[0] == b);
            assert(raw.skip(1) =~= tail);
        }
    }
}

proof fn lemma_escaped_has_no_hash(p: Seq<u8>, i: int)
    requires
        0 <= i < escaped(p).len(),
    ensures
        escaped(p)[i] != 35,
    decreases p.len(),
{
    if p.len() > 0 {
        let b = p[0];
        let head = escaped_byte(b);
        if i < head.len() {
            assert(escaped(p)[i] == head[i]);
            assert(35u8 ^ 0x20 == 3 && 36u8 ^ 0x20 == 4 && 125u8 ^ 0x20 == 93 && 42u8 ^ 0x20 == 10)
                by (bit_vector);
        } else {
            assert(escaped(p)[i] == escaped(p.drop_first())[i - head.len()]);
            lemma_escaped_has_no_hash(p.drop_first(), i - head.len());
        }
    }
}

/// Every payload survives the wire: decoding its packet gives the payload back
/// and uses exactly the packet, whatever follows it and whatever bytes other
/// than `$` come before it.
pub proof fn law_packet_round_trip(
    junk: Seq<u8>,
    p: Seq<u8>,
    more: Seq<u8>,
    r: Result<(Vec<u8>, usize), RspError>,
)
    requires
        forall|i: int| 0 <= i < junk.len() ==> junk[i] != 36,
        decode_result(junk + packet(p) + more, r),
    ensures
        r matches Ok(v) && v.0@ == p && v.1 == junk.len() + packet(p).len(),
{
    let input = junk + packet(p) + more;
    let body = escaped(p);
    let start = junk.len() as int;
    let hash = start + 1 + body.len();
    assert forall|i: int| 0 <= i < start implies input[i] != 36 by {
        assert(input[i] == junk[i]);
    }
    assert(input[start] == packet(p)[0]);
    lemma_place_of(input, 36, 0, start);
    assert forall|i: int| start + 1 <= i < hash implies input[i] != 35 by {
        assert(input[i] == packet(p)[i - start]);
        assert(packet(p)[i - start] == body[i - start - 1]);
        lemma_escaped_has_no_hash(p, i - start - 1);
    }
    assert(input[hash] == packet(p)[hash - start]);
    assert(packet(p)[hash - start] == 35);
    lemma_place_of(input, 35, start + 1, hash);
    assert(input.subrange(start + 1, hash) =~= body);
    let c = xor_sum(body);
    assert(input[hash + 1] == packet(p)[hash + 1 - start]);
    assert(input[hash + 2] == packet(p)[hash + 2 - start]);
    assert(packet(p)[hash + 1 - start] == hex_pair(c)[0]);
    assert(packet(p)[hash + 2 - start] == hex_pair(c)[1]);
    assert(nibble(digit(c as int / 16)) == Some((c as int / 16) as u8));
    assert(nibble(digit(c as int % 16)) == Some((c as int % 16) as u8));
    lemma_unescape_escaped(p, seq![]);
    assert(seq![] + p =~= p);
}

/// Bytes of a text, appended.
fn push_text(out: &mut Vec<u8>, s: &str)
    ensures
        final(out)@ == old(out)@ + encode_utf8(s@),
{
    push_all(out, s.as_bytes());
}

pub fn text_bytes(s: &str) -> (r: Vec<u8>)
    ensures
        r@ == encode_utf8(s@),
{
    let mut out: Vec<u8> = Vec::new();
    push_text(&mut out, s);
    proof {
        assert(out@ =~= encode_utf8(s@));
    }
    out
}

/// Texts joined by `;`.
pub open spec fn semicolon_joined(features: Seq<Seq<char>>) -> Seq<u8>
    decreases features.len(),
{
    if features.len() == 0 {
        seq![]
    } else if features.len() == 1 {
        encode_utf8(features[0])
    } else {
        semicolon_joined(features.drop_last()) + seq![59u8] + encode_utf8(features.last())
    }
}

/// The views of a list of texts.
pub open spec fn views(features: Seq<&str>) -> Seq<Seq<char>> {
    features.map_values(|f: &str| f@)
}

/// `qSupported`, with the features behind a `:`.
pub fn cmd_query_supported(features: &[&str]) -> (r: Vec<u8>)
    ensures
        r@ == encode_utf8("qSupported"@) + if features@.len() == 0 {
            seq![]
        } else {
            seq![58u8] + semicolon_joined(views(features@))
        },
{
    let mut out = text_bytes("qSupported");
    let ghost head = out@;
    if features.len() > 0 {
        out.push(58);
        let mut i: usize = 0;
        while i < features.len()
            invariant
                i <= features@.len(),
                out@ == head + (seq![58u8] + semicolon_joined(views(features@.take(i as int)))),
            decreases features@.len() - i,
        {
            if i > 0 {
                out.push(59);
            }
            push_text(&mut out, features[i]);
            proof {
                let v = views(features@.take(i + 1));
                assert(v.drop_last() =~= views(features@.take(i as int)));
                assert(v.last() == features@[i as int]@);
                if i == 0 {
                    assert(v.len() == 1);
                }
                assert(out@ =~= head + (seq![58u8] + semicolon_joined(v)));
            }
            i += 1;
        }
        proof {
            assert(features@.take(features@.len() as int) =~= features@);
        }
    }
    out
}

/// `g`: read all registers.
pub fn cmd_read_registers() -> (r: Vec<u8>)
    ensures
        r@ == encode_utf8("g"@),
{
    text_bytes("g")
}

/// `G<hex>`: write all registers.
pub fn cmd_write_registers(data: &[u8]) -> (r: Vec<u8>)
    ensures
        r@ == encode_utf8("G"@) + hex_all(data@),
{
    let mut out = text_bytes("G");
    push_hex_bytes(&mut out, data);
    out
}

/// `p<n>`: read a register.
pub fn cmd_read_one_register(n: u32) -> (r: Vec<u8>)
    ensures
        r@ == encode_utf8("p"@) + hex_number(n as nat),
{
    let mut out = text_bytes("p");
    push_hex_u32(&mut out, n);
    out
}

/// `P<n>=<hex>`: write a register.
pub fn cmd_write_one_register(n: u32, value: &[u8]) -> (r: Vec<u8>)
    ensures
        r@ == encode_utf8("P"@) + hex_number(n as nat) + seq![61u8] + hex_all(value@),
{
    let mut out = text_bytes("P");
    push_hex_u32(&mut out, n);
    out.push(61);
    push_hex_bytes(&mut out, value);
    proof {
        assert(out@ =~= encode_utf8("P"@) + hex_number(n as nat) + seq![61u8] + hex_all(value@));
    }
    out
}

/// A command letter, an address, `,` and a number.
pub open spec fn addressed(head: Seq<char>, addr: u32, n: u32) -> Seq<u8> {
    encode_utf8(head) + hex_number(addr as nat) + seq![44u8] + hex_number(n as nat)
}

fn addressed_bytes(head: &str, addr: u32, n: u32) -> (r: Vec<u8>)
    ensures
        r@ == addressed(head@, addr, n),
{
    let mut out = text_bytes(head);
    push_hex_u32(&mut out, addr);
    out.push(44);
    push_hex_u32(&mut out, n);
    proof {
        assert(out@ =~= addressed(head@, addr, n));
    }
    out
}

/// `m<addr>,<len>`: read memory.
pub fn cmd_read_memory(addr: u32, len: u32) -> (r: Vec<u8>)
    ensures
        r@ == addressed("m"@, addr, len),
{
    addressed_bytes("m", addr, len)
}

/// `M<addr>,<len>:<hex>`: write memory. The length field has 32 bits.
pub fn cmd_write_memory(addr: u32, data: &[u8]) -> (r: Vec<u8>)
    ensures
        r@ == addressed("M"@, addr, (data@.len() % 0x1_0000_0000) as u32) + seq![58u8] + hex_all(
            data@,
        ),
{
    let len: u32 = (data.len() as u64 % 0x1_0000_0000) as u32;
    let mut out = addressed_bytes("M", addr, len);
    out.push(58);
    push_hex_bytes(&mut out, data);
    proof {
        assert(out@ =~= addressed("M"@, addr, len) + seq![58u8] + hex_all(data@));
    }
    out
}

/// A command letter and an optional address.
pub open spec fn maybe_at(head: Seq<char>, addr: Option<u32>) -> Seq<u8> {
    match addr {
        None => encode_utf8(head),
        Some(a) => encode_utf8(head) + hex_number(a as nat),
    }
}

/// `c[addr]`: continue.
pub fn cmd_continue(addr: Option<u32>) -> (r: Vec<u8>)
    ensures
        r@ == maybe_at("c"@, addr),
{
    let mut out = text_bytes("c");
    if let Some(a) = addr {
        push_hex_u32(&mut out, a);
    }
    out
}

/// `s[addr]`: step.
pub fn cmd_step(addr: Option<u32>) -> (r: Vec<u8>)
    ensures
        r@ == maybe_at("s"@, addr),
{
    let mut out = text_bytes("s");
    if let Some(a) = addr {
        push_hex_u32(&mut out, a);
    }
    out
}

/// `Z0,<addr>,<kind>`: set a software breakpoint.
pub fn cmd_set_sw_breakpoint(addr: u32, kind: u32) -> (r: Vec<u8>)
    ensures
        r@ == addressed("Z0,"@, addr, kind),
{
    addressed_bytes("Z0,", addr, kind)
}

/// `z0,<addr>,<kind>`: clear a software breakpoint.
pub fn cmd_clear_sw_breakpoint(addr: u32, kind: u32) -> (r: Vec<u8>)
    ensures
        r@ == addressed("z0,"@, addr, kind),
{
    addressed_bytes("z0,", addr, kind)
}

/// `?`: why the 68k is halted.
pub fn cmd_query_halt_reason() -> (r: Vec<u8>)
    ensures
        r@ == encode_utf8("?"@),
{
    text_bytes("?")
}

/// `vCont;<actions>`.
pub fn cmd_vcont(actions: &str) -> (r: Vec<u8>)
    ensures
        r@ == encode_utf8("vCont;"@) + encode_utf8(actions@),
{
    let mut out = text_bytes("vCont;");
    push_text(&mut out, actions);
    out
}

/// `QStartNoAckMode`: no acknowledgements from here on.
pub fn cmd_query_start_no_ack_mode() -> (r: Vec<u8>)
    ensures
        r@ == encode_utf8("QStartNoAckMode"@),
{
    text_bytes("QStartNoAckMode")
}

/// `qMdsCram`: read CRAM.
pub fn cmd_qmds_cram() -> (r: Vec<u8>)
    ensures
        r@ == encode_utf8("qMdsCram"@),
{
    text_bytes("qMdsCram")
}

/// `qMdsVsram`: read VSRAM.
pub fn cmd_qmds_vsram() -> (r: Vec<u8>)
    ensures
        r@ == encode_utf8("qMdsVsram"@),
{
    text_bytes("qMdsVsram")
}

/// `qMdsVdpStatus`: read the VDP status word.
pub fn cmd_qmds_vdp_status() -> (r: Vec<u8>)
    ensures
        r@ == encode_utf8("qMdsVdpStatus"@),
{
    text_bytes("qMdsVdpStatus")
}

/// `qMdsVram:<addr>,<len>`: read up to 128 bytes of VRAM.
pub fn cmd_qmds_vram(addr: u32, len: u32) -> (r: Vec<u8>)
    ensures
        r@ == addressed("qMdsVram:"@, addr, len),
{
    addressed_bytes("qMdsVram:", addr, len)
}

/// A stop reply: `S<signal>`, or `T<signal>` with registers and a reason.
#[derive(Debug)]
pub enum StopReply {
    Sig(u8),
    TrapAt { signal: u8, regs: Vec<(u32, Vec<u8>)>, reason: Option<String> },
}

/// What is wrong with a field of a `T` reply.
#[derive(Debug, Clone, Copy, PartialEq, Eq, Structural)]
pub enum FieldFault {
    NoColon,
    BadHex,
    KeyNotText,
    ValueNotText,
}

/// The content of a `T` reply's fields as plain values.
pub struct Fields {
    pub regs: Seq<(u32, Seq<u8>)>,
    pub reason: Option<Seq<char>>,
}

/// Whether a field name is a register number.
pub open spec fn is_number(key: Seq<u8>) -> bool {
    key.len() > 0 && forall|i: int| 0 <= i < key.len() ==> (#[trigger] nibble(key[i])) is Some
}

/// A register number; it keeps its low 32 bits.
pub open spec fn number(key: Seq<u8>) -> int
    decreases key.len(),
{
    if key.len() == 0 {
        0
    } else {
        (number(key.drop_last()) * 16 + nibble(key.last())->0) % 0x1_0000_0000
    }
}

/// One field more.
pub open spec fn with_field(part: Seq<u8>, so_far: Fields) -> Result<Fields, FieldFault> {
    let colon = place_of(part, 58, 0);
    let key = part.take(colon);
    let value = part.skip(colon + 1);
    if colon >= part.len() {
        Err(FieldFault::NoColon)
    } else if is_number(key) {
        if is_hex(value) {
            Ok(
                Fields {
                    regs: so_far.regs.push((number(key) as u32, unhex(value))),
                    reason: so_far.reason,
                },
            )
        } else {
            Err(FieldFault::BadHex)
        }
    } else if !valid_utf8(key) {
        Err(FieldFault::KeyNotText)
    } else if !valid_utf8(value) {
        Err(FieldFault::ValueNotText)
    } else {
        Ok(
            Fields {
                regs: so_far.regs,
                reason: Some(decode_utf8(key) + ":"@ + decode_utf8(value)),
            },
        )
    }
}

/// The fields of a `T` reply from `from` on, separated by `;`; empty fields are
/// skipped, and the last reason counts.
pub open spec fn all_fields(rest: Seq<u8>, from: int, so_far: Fields) -> Result<Fields, FieldFault>
    decreases rest.len() - from,
{
    if from >= rest.len() {
        Ok(so_far)
    } else {
        let end = place_of(rest, 59, from);
        if end <= from {
            all_fields(rest, from + 1, so_far)
        } else if end >= rest.len() {
            with_field(rest.skip(from), so_far)
        } else {
            match with_field(rest.subrange(from, end), so_far) {
                Err(f) => Err(f),
                Ok(next) => all_fields(rest, end + 1, next),
            }
        }
    }
}

/// Whether registers are the given plain values.
pub open spec fn regs_are(regs: Seq<(u32, Vec<u8>)>, plain: Seq<(u32, Seq<u8>)>) -> bool {
    &&& regs.len() == plain.len()
    &&& forall|i: int|
        0 <= i < regs.len() ==> (#[trigger] regs[i]).0 == plain[i].0 && regs[i].1@ == plain[i].1
}

/// Whether a reason is the given text.
pub open spec fn reason_is(reason: Option<String>, plain: Option<Seq<char>>) -> bool {
    match reason {
        None => plain is None,
        Some(s) => plain == Some(s@),
    }
}

/// How a field's fault is told.
pub open spec fn field_error(f: FieldFault, e: RspError) -> bool {
    match f {
        FieldFault::BadHex => e is BadHex,
        FieldFault::NoColon => e matches RspError::UnexpectedReply(m) && m@
            == "T reply: missing ':'"@,
        FieldFault::KeyNotText => e matches RspError::UnexpectedReply(m) && m@
            == "T reply: non-utf8 key"@,
        FieldFault::ValueNotText => e matches RspError::UnexpectedReply(m) && m@
            == "T reply: non-utf8 val"@,
    }
}

/// What parsing a stop reply gives.
pub open spec fn stop_result(p: Seq<u8>, r: Result<StopReply, RspError>) -> bool {
    if p.len() == 0 {
        r matches Err(RspError::UnexpectedReply(m)) && m@ == "empty stop reply"@
    } else if p[0] == 83 && p.len() != 3 {
        r matches Err(RspError::UnexpectedReply(m)) && m@ == "S reply length "@ + dec(p.len())
    } else if p[0] == 84 && p.len() < 3 {
        r matches Err(RspError::UnexpectedReply(m)) && m@ == "T reply too short"@
    } else if p[0] != 83 && p[0] != 84 {
        r matches Err(RspError::UnexpectedReply(m)) && m@
            == "stop reply: unknown leading byte 0x"@ + lower(hex(p[0] as nat, 2))
    } else if nibble(p[1]) is None || nibble(p[2]) is None {
        r matches Err(RspError::BadHex)
    } else {
        let sig = 16 * nibble(p[1])->0 + nibble(p[2])->0;
        if p[0] == 83 {
            r matches Ok(StopReply::Sig(s)) && s == sig
        } else {
            match all_fields(p.skip(3), 0, Fields { regs: seq![], reason: None }) {
                Ok(f) => r matches Ok(StopReply::TrapAt { signal, regs, reason }) && signal == sig
                    && regs_are(regs@, f.regs) && reason_is(reason, f.reason),
                Err(fault) => r matches Err(e) && field_error(fault, e),
            }
        }
    }
}

fn is_register_number(key: &[u8]) -> (r: bool)
    ensures
        r == is_number(key@),
{
    if key.len() == 0 {
        return false;
    }
    let mut i: usize = 0;
    while i < key.len()
        invariant
            i <= key@.len(),
            forall|j: int| 0 <= j < i ==> (#[trigger] nibble(key@[j])) is Some,
        decreases key@.len() - i,
    {
        if hex_nibble(key[i]).is_none() {
            return false;
        }
        i += 1;
    }
    true
}

fn register_number(key: &[u8]) -> (r: u32)
    requires
        is_number(key@),
    ensures
        r == number(key@),
{
    let mut n: u64 = 0;
    let mut i: usize = 0;
    while i < key.len()
        invariant
            i <= key@.len(),
            is_number(key@),
            n == number(key@.take(i as int)),
            n < 0x1_0000_0000,
        decreases key@.len() - i,
    {
        proof {
            assert(key@.take(i + 1).drop_last() =~= key@.take(i as int));
            assert(nibble(key@[i as int]) is Some);
        }
        if let Some(d) = hex_nibble(key[i]) {
            n = (n * 16 + d as u64) % 0x1_0000_0000;
        }
        i += 1;
    }
    proof {
        assert(key@.take(key@.len() as int) =~= key@);
    }
    n as u32
}

/// The registers and the reason of a `T` reply, as they are read.
struct FieldBag {
    regs: Vec<(u32, Vec<u8>)>,
    reason: Option<String>,
}

impl FieldBag {
    spec fn is(self, f: Fields) -> bool {
        regs_are(self.regs@, f.regs) && reason_is(self.reason, f.reason)
    }
}

fn reply_error(m: &str) -> (e: RspError)
    ensures
        e matches RspError::UnexpectedReply(s) && s@ == m@,
{
    RspError::UnexpectedReply(m.to_owned())
}

fn add_field(bag: &mut FieldBag, part: &[u8], so_far: Ghost<Fields>) -> (r: Result<(), RspError>)
    requires
        old(bag).is(so_far@),
    ensures
        match with_field(part@, so_far@) {
            Ok(next) => r is Ok && final(bag).is(next),
            Err(fault) => r matches Err(e) && field_error(fault, e),
        },
{
    let colon: usize = find_byte(part, 58, 0);
    if colon >= part.len() {
        return Err(reply_error("T reply: missing ':'"));
    }
    let key = slice_subrange(part, 0, colon);
    let value = slice_subrange(part, colon + 1, part.len());
    proof {
        assert(key@ =~= part@.take(colon as int));
        assert(value@ =~= part@.skip(colon + 1));
    }
    if is_register_number(key) {
        let n: u32 = register_number(key);
        match parse_hex_bytes(value) {
            Err(_) => {
                return Err(RspError::BadHex);
            },
            Ok(bytes) => {
                bag.regs.push((n, bytes));
            },
        }
        return Ok(());
    }
    let k = match utf8_text(key) {
        None => {
            return Err(reply_error("T reply: non-utf8 key"));
        },
        Some(k) => k,
    };
    let v = match utf8_text(value) {
        None => {
            return Err(reply_error("T reply: non-utf8 val"));
        },
        Some(v) => v,
    };
    let mut reason = k.to_owned();
    reason.append(":");
    reason.append(v);
    bag.reason = Some(reason);
    Ok(())
}

/// Parses a stop reply.
pub fn parse_stop_reply(payload: &[u8]) -> (r: Result<StopReply, RspError>)
    ensures
        stop_result(payload@, r),
{
    if payload.len() == 0 {
        return Err(reply_error("empty stop reply"));
    }
    let kind: u8 = payload[0];
    if kind == 83 && payload.len() != 3 {
        let mut m = "S reply length ".to_owned();
        push_dec(&mut m, payload.len() as u128);
        return Err(RspError::UnexpectedReply(m));
    }
    if kind == 84 && payload.len() < 3 {
        return Err(reply_error("T reply too short"));
    }
    if kind != 83 && kind != 84 {
        let mut m = "stop reply: unknown leading byte 0x".to_owned();
        m.append(lower_hex(kind as u64, 2).as_str());
        return Err(RspError::UnexpectedReply(m));
    }
    let signal: u8 = match (hex_nibble(payload[1]), hex_nibble(payload[2])) {
        (Some(hi), Some(lo)) => 16 * hi + lo,
        _ => {
            return Err(RspError::BadHex);
        },
    };
    if kind == 83 {
        return Ok(StopReply::Sig(signal));
    }
    let rest = slice_subrange(payload, 3, payload.len());
    proof {
        assert(rest@ =~= payload@.skip(3));
    }
    let mut bag = FieldBag { regs: Vec::new(), reason: None };
    let ghost mut so_far = Fields { regs: seq![], reason: None };
    let ghost goal = all_fields(rest@, 0, so_far);
    let mut from: usize = 0;
    while from < rest.len()
        invariant
            from <= rest@.len(),
            bag.is(so_far),
            all_fields(rest@, from as int, so_far) == goal,
            goal == all_fields(payload@.skip(3), 0, Fields { regs: seq![], reason: None }),
            payload@.len() >= 3,
            payload@[0] == 84,
            nibble(payload@[1]) is Some,
            nibble(payload@[2]) is Some,
        decreases rest@.len() - from,
    {
        let end: usize = find_byte(rest, 59, from);
        if end > from {
            let part = slice_subrange(rest, from, end);
            let ghost step = with_field(part@, so_far);
            proof {
                if end == rest@.len() {
                    assert(part@ =~= rest@.skip(from as int));
                }
            }
            match add_field(&mut bag, part, Ghost(so_far)) {
                Err(e) => {
                    return Err(e);
                },
                Ok(()) => {},
            }
            proof {
                so_far = step->Ok_0;
            }
        }
        if end == rest.len() {
            from = end;
        } else {
            from = end + 1;
        }
    }
    Ok(StopReply::TrapAt { signal, regs: bag.regs, reason: bag.reason })
}

/// The text that `String::from_utf8_lossy` of std makes of bytes.
pub uninterp spec fn lossy_form(bytes: Seq<u8>) -> Seq<char>;

/// `String::from_utf8_lossy` of std. Valid UTF-8 is decoded; what stands for
/// invalid sequences is named.
#[verifier::external_body]
pub(crate) fn lossy_text(bytes: &[u8]) -> (r: String)
    ensures
        r@ == lossy_form(bytes@),
        valid_utf8(bytes@) ==> r@ == decode_utf8(bytes@),
{
    String::from_utf8_lossy(bytes).into_owned()
}

/// The message that a reply is not what was expected.
pub open spec fn not_expected(e: RspError, want: Seq<char>, p: Seq<u8>) -> bool {
    e matches RspError::UnexpectedReply(m) && m@ == "expected "@ + want + ", got "@ + debug_form(
        lossy_form(p),
    )
}

fn not_as_expected(want: &str, payload: &[u8]) -> (e: RspError)
    ensures
        not_expected(e, want@, payload@),
{
    let mut m = "expected ".to_owned();
    m.append(want);
    m.append(", got ");
    m.append(debug_text(lossy_text(payload).as_str()).as_str());
    RspError::UnexpectedReply(m)
}

/// Parses `OK`.
pub fn parse_ok(payload: &[u8]) -> (r: Result<(), RspError>)
    ensures
        r is Ok <==> payload@ == seq![79u8, 75u8],
        r matches Err(e) ==> not_expected(e, "OK"@, payload@),
{
    if payload.len() == 2 && payload[0] == 79 && payload[1] == 75 {
        proof {
            assert(payload@ =~= seq![79u8, 75u8]);
        }
        Ok(())
    } else {
        Err(not_as_expected("OK", payload))
    }
}

/// Parses `E<xx>` and gives the code.
pub fn parse_error(payload: &[u8]) -> (r: Result<u8, RspError>)
    ensures
        if payload@.len() != 3 || payload@[0] != 69 {
            r matches Err(e) && not_expected(e, "E<xx>"@, payload@)
        } else {
            match (nibble(payload@[1]), nibble(payload@[2])) {
                (Some(hi), Some(lo)) => r matches Ok(code) && code == 16 * hi + lo,
                _ => r matches Err(RspError::BadHex),
            }
        },
{
    if payload.len() != 3 || payload[0] != 69 {
        return Err(not_as_expected("E<xx>", payload));
    }
    match (hex_nibble(payload[1]), hex_nibble(payload[2])) {
        (Some(hi), Some(lo)) => Ok(16 * hi + lo),
        _ => Err(RspError::BadHex),
    }
}

/// The first place of `c` in a text, or its length.
pub open spec fn char_place(s: Seq<char>, c: char, from: int) -> int
    decreases s.len() - from,
{
    if from >= s.len() {
        s.len() as int
    } else if s[from] == c {
        from
    } else {
        char_place(s, c, from + 1)
    }
}

/// A feature: `name=value`, or a name with one of `+`, `-` and `?` behind it, or
/// a bare name.
pub open spec fn feature(s: Seq<char>) -> (Seq<char>, Seq<char>) {
    let eq = char_place(s, '=', 0);
    if eq < s.len() {
        (s.take(eq), s.skip(eq + 1))
    } else if s.last() == '+' || s.last() == '-' || s.last() == '?' {
        (s.drop_last(), seq![s.last()])
    } else {
        (s, seq![])
    }
}

/// One feature more; nothing for an empty text.
pub open spec fn with_feature(s: Seq<char>, so_far: Seq<(Seq<char>, Seq<char>)>) -> Seq<
    (Seq<char>, Seq<char>),
> {
    if s.len() == 0 {
        so_far
    } else {
        so_far.push(feature(s))
    }
}

/// The features of a `qSupported` reply from `from` on, separated by `;`.
pub open spec fn feature_list(p: Seq<u8>, from: int, so_far: Seq<(Seq<char>, Seq<char>)>) -> Seq<
    (Seq<char>, Seq<char>),
>
    decreases p.len() - from,
{
    if from >= p.len() {
        so_far
    } else {
        let end = place_of(p, 59, from);
        if end <= from {
            feature_list(p, from + 1, so_far)
        } else if end >= p.len() {
            with_feature(lossy_form(p.skip(from)), so_far)
        } else {
            feature_list(p, end + 1, with_feature(lossy_form(p.subrange(from, end)), so_far))
        }
    }
}

/// Whether a list of texts is the given plain values.
pub open spec fn pairs_are(
    v: Seq<(String, String)>,
    plain: Seq<(Seq<char>, Seq<char>)>,
) -> bool {
    &&& v.len() == plain.len()
    &&& forall|i: int|
        0 <= i < v.len() ==> (#[trigger] v[i]).0@ == plain[i].0 && v[i].1@ == plain[i].1
}

/// Splits a feature.
pub fn split_feature(s: &str) -> (r: (String, String))
    requires
        s@.len() > 0,
    ensures
        r.0@ == feature(s@).0,
        r.1@ == feature(s@).1,
{
    let chars = crate::text::chars_of(s);
    let n: usize = chars.len();
    let mut eq: usize = 0;
    while eq < n && chars[eq] != '='
        invariant
            eq <= n,
            n == chars@.len(),
            chars@ == s@,
            char_place(s@, '=', eq as int) == char_place(s@, '=', 0),
        decreases n - eq,
    {
        eq += 1;
    }
    let (upto, value_from): (usize, usize) = if eq < n {
        (eq, eq + 1)
    } else if chars[n - 1] == '+' || chars[n - 1] == '-' || chars[n - 1] == '?' {
        (n - 1, n - 1)
    } else {
        (n, n)
    };
    let mut name = String::new();
    let mut i: usize = 0;
    while i < upto
        invariant
            i <= upto <= n,
            n == chars@.len(),
            name@ == chars@.take(i as int),
        decreases upto - i,
    {
        name.push(chars[i]);
        i += 1;
    }
    let mut value = String::new();
    let mut k: usize = value_from;
    while k < n
        invariant
            value_from <= k <= n,
            n == chars@.len(),
            value@ == chars@.subrange(value_from as int, k as int),
        decreases n - k,
    {
        value.push(chars[k]);
        k += 1;
    }
    proof {
        let f = feature(s@);
        if eq < n {
            assert(value@ =~= f.1);
        } else {
            assert(value@ =~= f.1);
            assert(name@ =~= f.0);
        }
    }
    (name, value)
}

/// Parses a `qSupported` reply.
pub fn parse_qsupported_reply(payload: &[u8]) -> (r: Vec<(String, String)>)
    ensures
        pairs_are(r@, feature_list(payload@, 0, seq![])),
{
    let mut out: Vec<(String, String)> = Vec::new();
    let ghost mut plain: Seq<(Seq<char>, Seq<char>)> = seq![];
    let mut from: usize = 0;
    while from < payload.len()
        invariant
            from <= payload@.len(),
            pairs_are(out@, plain),
            feature_list(payload@, from as int, plain) == feature_list(payload@, 0, seq![]),
        decreases payload@.len() - from,
    {
        let end: usize = find_byte(payload, 59, from);
        if end > from {
            let part = slice_subrange(payload, from, end);
            proof {
                if end == payload@.len() {
                    assert(part@ =~= payload@.skip(from as int));
                }
            }
            let s = lossy_text(part);
            if !s.as_str().is_empty() {
                let pair = split_feature(s.as_str());
                out.push(pair);
            }
            proof {
                plain = with_feature(s@, plain);
            }
        }
        if end == payload.len() {
            from = end;
        } else {
            from = end + 1;
        }
    }
    out
}

/// Hex digits are `0` to `9` and `a` to `f`; the capitals `A` to `F` are read too,
/// and nothing else.
pub proof fn law_hex_digits(d: int, c: u8)
    requires
        0 <= d < 16,
    ensures
        d < 10 ==> digit(d) == '0' as u8 + d,
        d >= 10 ==> digit(d) == 'a' as u8 + (d - 10),
        nibble(digit(d)) == Some(d as u8),
        d >= 10 ==> nibble((digit(d) - 32) as u8) == Some(d as u8),
        nibble(c) matches Some(n) ==> n < 16 && (c == digit(n as int) || c + 32 == digit(n as int)),
{
}

/// Bytes in hex are two digits each, the high half first.
pub proof fn law_hex_order(s: Seq<u8>, i: int)
    requires
        0 <= i < s.len(),
    ensures
        hex_all(s).len() == 2 * s.len(),
        ({
            let hi = hex_all(s)[2 * i];
            let lo = hex_all(s)[2 * i + 1];
            nibble(hi) is Some && nibble(lo) is Some && 16 * nibble(hi)->0 + nibble(lo)->0 == s[i]
        }),
{
    let b = s[i] as int;
    assert((2 * i) % 2 == 0 && (2 * i) / 2 == i);
    assert((2 * i + 1) % 2 == 1 && (2 * i + 1) / 2 == i);
    law_hex_digits(b / 16, 0);
    law_hex_digits(b % 16, 0);
}

/// A number in hex reads back as the number.
pub proof fn law_number_reads_back(n: u32)
    ensures
        is_number(hex_number(n as nat)),
        number(hex_number(n as nat)) == n,
        n > 0 ==> hex_number(n as nat)[0] != '0' as u8,
    decreases n,
{
    let s = hex_number(n as nat);
    if n < 16 {
        assert(s.drop_last() =~= seq![]);
        assert(number(s.drop_last()) == 0);
        law_hex_digits(n as int, 0);
        assert(s.last() == digit(n as int));
    } else {
        let q: u32 = n / 16;
        law_number_reads_back(q);
        let d = n as int % 16;
        law_hex_digits(d, 0);
        assert(s.drop_last() =~= hex_number(q as nat));
        assert(s.last() == digit(d));
        assert(s[0] == hex_number(q as nat)[0]);
        assert forall|i: int| 0 <= i < s.len() implies (#[trigger] nibble(s[i])) is Some by {
            if i < s.len() - 1 {
                assert(s[i] == hex_number(q as nat)[i]);
            }
        }
        assert(number(s) == (number(s.drop_last()) * 16 + nibble(s.last())->0) % 0x1_0000_0000);
    }
}

/// The checksum is the exclusive or of the bytes: of one byte the byte, of two
/// parts that of both, and of bytes with their checksum behind them 0.
pub proof fn law_checksum(a: Seq<u8>, b: Seq<u8>, x: u8)
    ensures
        xor_sum(seq![x]) == x,
        xor_sum(a + b) == xor_sum(a) ^ xor_sum(b),
        xor_sum(a.push(xor_sum(a))) == 0,
    decreases b.len(),
{
    let one = seq![x];
    assert(one.drop_last() =~= seq![]);
    assert(xor_sum(one.drop_last()) == 0);
    assert(0u8 ^ x == x) by (bit_vector);
    let s: u8 = xor_sum(a);
    assert(s ^ s == 0) by (bit_vector);
    assert(a.push(s).drop_last() =~= a);
    if b.len() == 0 {
        assert(a + b =~= a);
        assert(s ^ 0u8 == s) by (bit_vector);
    } else {
        law_checksum(a, b.drop_last(), x);
        assert((a + b).drop_last() =~= a + b.drop_last());
        let t: u8 = xor_sum(b.drop_last());
        let l: u8 = b.last();
        assert((s ^ t) ^ l == s ^ (t ^ l)) by (bit_vector);
    }
}

/// Only `#`, `$`, `*` and `}` are escaped: a `}` goes first, and the byte follows
/// with bit 5 turned over.
pub proof fn law_escapes(b: u8)
    ensures
        b == '#' as u8 ==> escaped_byte(b) == seq![125u8, 3],
        b == '$' as u8 ==> escaped_byte(b) == seq![125u8, 4],
        b == '*' as u8 ==> escaped_byte(b) == seq![125u8, 10],
        b == '}' as u8 ==> escaped_byte(b) == seq![125u8, 93],
        b != 35 && b != 36 && b != 42 && b != 125 ==> escaped_byte(b) == seq![b],
{
    assert(35u8 ^ 0x20 == 3 && 36u8 ^ 0x20 == 4 && 125u8 ^ 0x20 == 93 && 42u8 ^ 0x20 == 10)
        by (bit_vector);
}

/// A payload without those bytes goes out as it is, between `$` and `#`, with its
/// checksum in two digits behind.
pub proof fn law_plain_packet(p: Seq<u8>)
    requires
        forall|i: int|
            0 <= i < p.len() ==> #[trigger] p[i] != 35 && p[i] != 36 && p[i] != 42 && p[i] != 125,
    ensures
        packet(p) == seq!['$' as u8] + p + seq!['#' as u8] + hex_pair(xor_sum(p)),
{
    lemma_plain(p);
}

proof fn lemma_plain(p: Seq<u8>)
    requires
        forall|i: int|
            0 <= i < p.len() ==> #[trigger] p[i] != 35 && p[i] != 36 && p[i] != 42 && p[i] != 125,
    ensures
        escaped(p) == p,
    decreases p.len(),
{
    if p.len() > 0 {
        let rest = p.drop_first();
        assert forall|i: int| 0 <= i < rest.len() implies #[trigger] rest[i] != 35 && rest[i] != 36
            && rest[i] != 42 && rest[i] != 125 by {
            assert(rest[i] == p[i + 1]);
        }
        lemma_plain(rest);
        assert(p[0] != 35);
        assert(seq![p[0]] + rest =~= p);
    } else {
        assert(escaped(p) =~= p);
    }
}

/// A byte, a `*` and a count stand for the byte, the count less 28 times.
pub proof fn law_run_length(b: u8, n: int)
    requires
        b != 42,
        b != 125,
        1 <= n,
        n + 28 < 256,
    ensures
        unescaped(seq![b, '*' as u8, (n + 28) as u8], seq![]) == Some(repeated(b, n)),
        repeated(b, n).len() == n,
{
    let raw = seq![b, 42u8, (n + 28) as u8];
    let out: Seq<u8> = seq![];
    assert(raw.skip(1) =~= seq![42u8, (n + 28) as u8]);
    let r1 = raw.skip(1);
    assert(r1[0] == 42 && r1[1] == n + 28 && r1.len() == 2);
    let o1 = out.push(b);
    assert(o1.last() == b);
    assert(unescaped(raw, out) == unescaped(r1, o1));
    assert(r1.skip(2) =~= seq![]);
    let o2 = o1 + repeated(b, n + 28 - 29);
    assert(unescaped(r1, o1) == unescaped(r1.skip(2), o2));
    assert(unescaped(r1.skip(2), o2) == Some(o2));
    assert(o2 =~= repeated(b, n));
}

/// A command with an address carries the address and the number, in hex, on both
/// sides of a `,`.
pub proof fn law_addressed(head: Seq<char>, addr: u32, n: u32)
    ensures
        exists|a: Seq<u8>, b: Seq<u8>|
            addressed(head, addr, n) == encode_utf8(head) + a + seq![',' as u8] + b && is_number(a)
                && is_number(b) && #[trigger] number(a) == addr && #[trigger] number(b) == n,
        exists|a: Seq<u8>|
            maybe_at(head, Some(addr)) == encode_utf8(head) + a && is_number(a) && #[trigger] number(
                a,
            ) == addr,
        maybe_at(head, None) == encode_utf8(head),
{
    law_number_reads_back(addr);
    law_number_reads_back(n);
    let a = hex_number(addr as nat);
    let b = hex_number(n as nat);
    assert(addressed(head, addr, n) == encode_utf8(head) + a + seq![44u8] + b);
    assert(number(a) == addr && number(b) == n);
    assert(maybe_at(head, Some(addr)) == encode_utf8(head) + a);
}

/// `S` with a signal in two digits is that signal.
pub proof fn law_signal_reply(sig: u8, r: Result<StopReply, RspError>)
    requires
        stop_result(seq!['S' as u8] + hex_pair(sig), r),
    ensures
        r matches Ok(StopReply::Sig(s)) && s == sig,
{
    let p = seq!['S' as u8] + hex_pair(sig);
    assert(p[0] == 83 && p[1] == digit(sig as int / 16) && p[2] == digit(sig as int % 16));
    law_hex_digits(sig as int / 16, 0);
    law_hex_digits(sig as int % 16, 0);
}

/// `T` with a signal and a field of a register's number and bytes is that signal
/// with that register; a closing `;` adds nothing.
pub proof fn law_trap_reply(sig: u8, n: u32, v: Seq<u8>, r: Result<StopReply, RspError>)
    requires
        stop_result(
            seq!['T' as u8] + hex_pair(sig) + (hex_number(n as nat) + seq![':' as u8] + hex_all(v)
                + seq![';' as u8]),
            r,
        ),
    ensures
        r matches Ok(StopReply::TrapAt { signal, regs, reason }) && signal == sig && regs@.len()
            == 1 && regs@[0].0 == n && regs@[0].1@ == v && reason is None,
{
    let key = hex_number(n as nat);
    let value = hex_all(v);
    let part = key + seq![58u8] + value;
    let rest = part + seq![59u8];
    let p = seq!['T' as u8] + hex_pair(sig) + (key + seq![58u8] + value + seq![59u8]);
    assert(p[0] == 84 && p[1] == digit(sig as int / 16) && p[2] == digit(sig as int % 16));
    law_hex_digits(sig as int / 16, 0);
    law_hex_digits(sig as int % 16, 0);
    assert(p.skip(3) =~= rest);
    law_number_reads_back(n);
    law_hex_round_trip(v);
    assert forall|i: int| 0 <= i < key.len() implies part[i] != 58 by {
        assert(nibble(key[i]) is Some);
        assert(part[i] == key[i]);
    }
    lemma_place_of(part, 58, 0, key.len() as int);
    assert(part.take(key.len() as int) =~= key);
    assert(part.skip(key.len() as int + 1) =~= value);
    assert forall|i: int| 0 <= i < part.len() implies rest[i] != 59 by {
        if i < key.len() {
            assert(nibble(key[i]) is Some);
            assert(rest[i] == key[i]);
        } else if i > key.len() {
            assert(nibble(value[i - key.len() - 1]) is Some);
            assert(rest[i] == value[i - key.len() - 1]);
        }
    }
    lemma_place_of(rest, 59, 0, part.len() as int);
    assert(rest.subrange(0, part.len() as int) =~= part);
    let none = Fields { regs: seq![], reason: None };
    let one = Fields { regs: none.regs.push((n, v)), reason: None };
    assert(with_field(part, none) == Ok::<Fields, FieldFault>(one));
    assert(part.len() > 0);
    assert(all_fields(rest, part.len() as int + 1, one) == Ok::<Fields, FieldFault>(one));
    assert(all_fields(rest, 0, none) == Ok::<Fields, FieldFault>(one));
}

proof fn lemma_char_place(s: Seq<char>, c: char, from: int, at: int)
    requires
        0 <= from <= at <= s.len(),
        forall|i: int| from <= i < at ==> s[i] != c,
        at == s.len() || s[at] == c,
    ensures
        char_place(s, c, from) == at,
    decreases at - from,
{
    if from < at {
        lemma_char_place(s, c, from + 1, at);
    }
}

/// A feature is its name and what stands behind the first `=`; without one, its
/// name and the `+`, `-` or `?` at its end.
pub proof fn law_feature(name: Seq<char>, value: Seq<char>, mark: char)
    requires
        forall|i: int| 0 <= i < name.len() ==> name[i] != '=',
    ensures
        feature(name + seq!['='] + value) == (name, value),
        mark == '+' || mark == '-' || mark == '?' ==> feature(name.push(mark)) == (
            name,
            seq![mark],
        ),
        name.len() > 0 && name.last() != '+' && name.last() != '-' && name.last() != '?' ==> feature(
            name,
        ) == (name, Seq::<char>::empty()),
{
    let s = name + seq!['='] + value;
    assert forall|i: int| 0 <= i < name.len() implies s[i] != '=' by {
        assert(s[i] == name[i]);
    }
    lemma_char_place(s, '=', 0, name.len() as int);
    assert(s.take(name.len() as int) =~= name);
    assert(s.skip(name.len() as int + 1) =~= value);
    if mark == '+' || mark == '-' || mark == '?' {
        let t = name.push(mark);
        assert forall|i: int| 0 <= i < t.len() implies t[i] != '=' by {
            if i < name.len() {
                assert(t[i] == name[i]);
            }
        }
        lemma_char_place(t, '=', 0, t.len() as int);
        assert(t.drop_last() =~= name);
    }
    lemma_char_place(name, '=', 0, name.len() as int);
}

/// What is wrong with input that is no packet: without a `$` there is no start;
/// without a `#` and two bytes behind it there is no end; digits that are not hex,
/// and a checksum that is not that of the bytes between, are told apart.
pub proof fn law_decode_errors(input: Seq<u8>, body: Seq<u8>, c: (u8, u8), r: Result<
    (Vec<u8>, usize),
    RspError,
>)
    requires
        decode_result(input, r),
        forall|i: int| 0 <= i < body.len() ==> body[i] != 35,
    ensures
        (forall|i: int| 0 <= i < input.len() ==> input[i] != '$' as u8) ==> (r matches Err(e)
            && e is NoPacketStart),
        input == seq!['$' as u8] + body ==> (r matches Err(e) && e is UnterminatedPacket),
        input == seq!['$' as u8] + body + seq!['#' as u8, c.0] ==> (r matches Err(e)
            && e is UnterminatedPacket),
        input == seq!['$' as u8] + body + seq!['#' as u8, c.0, c.1] ==> {
            &&& nibble(c.0) is None || nibble(c.1) is None ==> (r matches Err(e) && e is BadHex)
            &&& nibble(c.0) is Some && nibble(c.1) is Some && 16 * nibble(c.0)->0 + nibble(c.1)->0
                != xor_sum(body) ==> (r matches Err(RspError::BadChecksum { got, expected }) && got
                == 16 * nibble(c.0)->0 + nibble(c.1)->0 && expected == xor_sum(body))
        },
{
    if forall|i: int| 0 <= i < input.len() ==> input[i] != 36 {
        lemma_place_of(input, 36, 0, input.len() as int);
    }
    let n = body.len() as int;
    let cut = seq![36u8] + body;
    let short = cut + seq![35u8, c.0];
    let whole = cut + seq![35u8, c.0, c.1];
    if input == cut || input == short || input == whole {
        assert(input[0] == 36);
        lemma_place_of(input, 36, 0, 0);
        assert forall|i: int| 1 <= i < n + 1 implies input[i] != 35 by {
            assert(input[i] == body[i - 1]);
        }
        lemma_place_of(input, 35, 1, n + 1);
        if input != cut {
            assert(input[n + 1] == 35);
        }
        if input == whole {
            assert(input.subrange(1, n + 1) =~= body);
            assert(input[n + 2] == c.0 && input[n + 3] == c.1);
        }
    }
}

/// Fields are kept in the order in which they come: a register goes behind those
/// before it and keeps the reason, a reason keeps the registers.
pub proof fn law_fields_in_order(part: Seq<u8>, so_far: Fields, next: Fields)
    requires
        with_field(part, so_far) == Ok::<Fields, FieldFault>(next),
    ensures
        next.regs == so_far.regs || (next.regs.drop_last() == so_far.regs && next.reason
            == so_far.reason),
        next.regs == so_far.regs ==> next.reason is Some,
{
    assert(next.regs == so_far.regs ==> next.regs.len() == so_far.regs.len());
    if next.regs != so_far.regs {
        assert(next.regs.drop_last() =~= so_far.regs);
    }
}

/// A field whose name is no number is the reason, told as `name:value`.
pub proof fn law_reason_field(key: Seq<char>, value: Seq<char>, so_far: Fields)
    requires
        !is_number(encode_utf8(key)),
        forall|i: int| 0 <= i < encode_utf8(key).len() ==> encode_utf8(key)[i] != 58,
    ensures
        with_field(encode_utf8(key) + seq![':' as u8] + encode_utf8(value), so_far) == Ok::<
            Fields,
            FieldFault,
        >(Fields { regs: so_far.regs, reason: Some(key + seq![':'] + value) }),
{
    let k = encode_utf8(key);
    let v = encode_utf8(value);
    let part = k + seq![58u8] + v;
    assert forall|i: int| 0 <= i < k.len() implies part[i] != 58 by {
        assert(part[i] == k[i]);
    }
    lemma_place_of(part, 58, 0, k.len() as int);
    assert(part.take(k.len() as int) =~= k);
    assert(part.skip(k.len() as int + 1) =~= v);
    encode_utf8_valid_utf8(key);
    encode_utf8_valid_utf8(value);
    encode_utf8_decode_utf8(key);
    encode_utf8_decode_utf8(value);
    reveal_strlit(":");
    assert(":"@ =~= seq![':']);
}

/// Features are joined by `;`, in their order.
pub proof fn law_joined(f: Seq<Seq<char>>, x: Seq<char>)
    ensures
        f.len() > 0 ==> semicolon_joined(f.push(x)) == semicolon_joined(f) + seq![';' as u8]
            + encode_utf8(x),
        semicolon_joined(seq![x]) == encode_utf8(x),
{
    assert(f.push(x).drop_last() =~= f);
}

/// An empty field says nothing: a `;` where a field would start is skipped.
pub proof fn law_empty_field(rest: Seq<u8>, from: int, so_far: Fields)
    requires
        0 <= from < rest.len(),
        rest[from] == ';' as u8,
    ensures
        all_fields(rest, from, so_far) == all_fields(rest, from + 1, so_far),
{
    lemma_place_of(rest, 59, from, from);
}

/// A feature goes behind those before it; an empty one says nothing, and neither
/// does a `;` where one would start.
pub proof fn law_features_in_order(
    s: Seq<char>,
    so_far: Seq<(Seq<char>, Seq<char>)>,
    p: Seq<u8>,
    from: int,
)
    requires
        0 <= from < p.len(),
    ensures
        s.len() > 0 ==> with_feature(s, so_far).drop_last() == so_far && with_feature(
            s,
            so_far,
        ).last() == feature(s),
        s.len() == 0 ==> with_feature(s, so_far) == so_far,
        p[from] == ';' as u8 ==> feature_list(p, from, so_far) == feature_list(
            p,
            from + 1,
            so_far,
        ),
{
    assert(so_far.push(feature(s)).drop_last() =~= so_far);
    if p[from] == 59 {
        lemma_place_of(p, 59, from, from);
    }
}

} // verus!
