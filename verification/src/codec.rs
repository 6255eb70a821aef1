//! Base64 with the standard alphabet and canonical padding.

use crate::text::{dec, push_dec};
use base64::Engine;
use vstd::prelude::*;
use vstd::string::*;

verus! {

/// The symbol of a six-bit value.
pub open spec fn symbol(n: int) -> char {
    if n < 26 {
        (65 + n) as char
    } else if n < 52 {
        (71 + n) as char
    } else if n < 62 {
        (n - 4) as char
    } else if n == 62 {
        '+'
    } else {
        '/'
    }
}

/// The Base64 form of `s`: four symbols for three bytes, padded with `=`.
pub open spec fn b64(s: Seq<u8>) -> Seq<char>
    decreases s.len(),
{
    if s.len() == 0 {
        seq![]
    } else if s.len() == 1 {
        seq![symbol(s[0] as int / 4), symbol((s[0] as int % 4) * 16), '=', '=']
    } else if s.len() == 2 {
        seq![
            symbol(s[0] as int / 4),
            symbol((s[0] as int % 4) * 16 + s[1] as int / 16),
            symbol((s[1] as int % 16) * 4),
            '=',
        ]
    } else {
        seq![
            symbol(s[0] as int / 4),
            symbol((s[0] as int % 4) * 16 + s[1] as int / 16),
            symbol((s[1] as int % 16) * 4 + s[2] as int / 64),
            symbol(s[2] as int % 64),
        ] + b64(s.skip(3))
    }
}

/// The longest input whose Base64 form is a string: the form has at most
/// `isize::MAX` bytes, which is half of `usize::MAX`.
pub const MAX_ENCODE: usize = usize::MAX / 8 * 3;

/// Why a text is not Base64.
#[derive(Debug, Clone, Copy, PartialEq, Eq, Structural)]
pub enum DecodeFault {
    /// A byte outside the alphabet, with its offset.
    InvalidByte(usize, u8),
    /// A number of symbols that no input has.
    InvalidLength(usize),
    /// A last symbol with bits that would be dropped, with its offset.
    InvalidLastSymbol(usize, u8),
    /// Missing or superfluous padding.
    InvalidPadding,
}

impl DecodeFault {
    /// The fault's message.
    pub open spec fn text(self) -> Seq<char> {
        match self {
            DecodeFault::InvalidByte(at, b) => "Invalid symbol "@ + dec(b as nat) + ", offset "@
                + dec(at as nat) + "."@,
            DecodeFault::InvalidLength(n) => "Invalid input length: "@ + dec(n as nat),
            DecodeFault::InvalidLastSymbol(at, b) => "Invalid last symbol "@ + dec(b as nat)
                + ", offset "@ + dec(at as nat) + "."@,
            DecodeFault::InvalidPadding => "Invalid padding"@,
        }
    }

    /// The fault's message.
    pub fn message(&self) -> (r: String)
        ensures
            r@ == self.text(),
    {
        match *self {
            DecodeFault::InvalidByte(at, b) => {
                let mut m = "Invalid symbol ".to_owned();
                push_dec(&mut m, b as u128);
                m.append(", offset ");
                push_dec(&mut m, at as u128);
                m.append(".");
                m
            },
            DecodeFault::InvalidLength(n) => {
                let mut m = "Invalid input length: ".to_owned();
                push_dec(&mut m, n as u128);
                m
            },
            DecodeFault::InvalidLastSymbol(at, b) => {
                let mut m = "Invalid last symbol ".to_owned();
                push_dec(&mut m, b as u128);
                m.append(", offset ");
                push_dec(&mut m, at as u128);
                m.append(".");
                m
            },
            DecodeFault::InvalidPadding => "Invalid padding".to_owned(),
        }
    }
}

/// Which fault `base64`'s standard engine reports for a text that is not the
/// Base64 form of any bytes.
pub uninterp spec fn fault_of(text: Seq<char>) -> DecodeFault;

/// `base64::Engine::encode` of the standard engine: the padded Base64 form.
/// It panics where that form is longer than a string can be, so the input is
/// bounded.
#[verifier::external_body]
pub(crate) fn b64_encode(bytes: &[u8]) -> (r: String)
    requires
        bytes@.len() <= MAX_ENCODE,
    ensures
        r@ == b64(bytes@),
{
    base64::engine::general_purpose::STANDARD.encode(bytes)
}

/// `base64::Engine::decode` of the standard engine: it accepts exactly the
/// canonical Base64 forms, and gives back the bytes that the text is the form
/// of. Which fault it reports otherwise is named.
#[verifier::external_body]
pub(crate) fn b64_decode(text: &str) -> (r: Result<Vec<u8>, DecodeFault>)
    ensures
        r is Ok <==> exists|v: Seq<u8>| #[trigger] b64(v) == text@,
        r matches Ok(v) ==> b64(v@) == text@,
        r matches Err(f) ==> f == fault_of(text@),
{
    base64::engine::general_purpose::STANDARD.decode(text.as_bytes()).map_err(|e| match e {
        base64::DecodeError::InvalidByte(at, b) => DecodeFault::InvalidByte(at, b),
        base64::DecodeError::InvalidLength(n) => DecodeFault::InvalidLength(n),
        base64::DecodeError::InvalidLastSymbol(at, b) => DecodeFault::InvalidLastSymbol(at, b),
        base64::DecodeError::InvalidPadding => DecodeFault::InvalidPadding,
    })
}

/// Symbols stand for one value each, and none of them is the padding.
proof fn lemma_symbol(m: int, n: int)
    requires
        0 <= m < 64,
        0 <= n < 64,
    ensures
        symbol(m) == symbol(n) ==> m == n,
        symbol(m) != '=',
{
}

/// Different bytes have different Base64 forms, so decoding what was encoded
/// can only give the same bytes back.
pub proof fn law_b64_injective(a: Seq<u8>, b: Seq<u8>)
    requires
        b64(a) == b64(b),
    ensures
        a == b,
    decreases a.len(),
{
    let x = b64(a);
    if a.len() == 0 || b.len() == 0 {
        assert(a =~= b);
    } else {
        let a0 = a[0] as int;
        let b0 = b[0] as int;
        let a1 = if a.len() > 1 { a[1] as int } else { 0 };
        let b1 = if b.len() > 1 { b[1] as int } else { 0 };
        let a2 = if a.len() > 2 { a[2] as int } else { 0 };
        let b2 = if b.len() > 2 { b[2] as int } else { 0 };
        assert(x[0] == symbol(a0 / 4) && x[1] == symbol((a0 % 4) * 16 + a1 / 16));
        assert(x[0] == symbol(b0 / 4) && x[1] == symbol((b0 % 4) * 16 + b1 / 16));
        lemma_symbol(a0 / 4, b0 / 4);
        lemma_symbol((a0 % 4) * 16 + a1 / 16, (b0 % 4) * 16 + b1 / 16);
        lemma_symbol((a1 % 16) * 4 + a2 / 64, (b1 % 16) * 4 + b2 / 64);
        lemma_symbol((b1 % 16) * 4 + b2 / 64, (b1 % 16) * 4 + b2 / 64);
        lemma_symbol(a2 % 64, b2 % 64);
        lemma_symbol(b2 % 64, b2 % 64);
        if a.len() == 1 {
            assert(x[2] == '=');
            assert(x[3] == '=');
            assert(b.len() == 1);
            assert(a =~= b);
        } else if a.len() == 2 {
            assert(x[2] == symbol((a1 % 16) * 4 + a2 / 64));
            assert(x[3] == '=');
            assert(b.len() == 2);
            assert(x[2] == symbol((b1 % 16) * 4 + b2 / 64));
            assert(a =~= b);
        } else {
            assert(x[2] == symbol((a1 % 16) * 4 + a2 / 64));
            assert(x[3] == symbol(a2 % 64));
            assert(b.len() >= 3);
            assert(x[2] == symbol((b1 % 16) * 4 + b2 / 64));
            assert(x[3] == symbol(b2 % 64));
            assert(x.skip(4) =~= b64(a.skip(3)));
            assert(x.skip(4) =~= b64(b.skip(3)));
            law_b64_injective(a.skip(3), b.skip(3));
            assert(a =~= seq![a[0], a[1], a[2]] + a.skip(3));
            assert(b =~= seq![b[0], b[1], b[2]] + b.skip(3));
        }
    }
}

/// The Base64 form has four characters for every three bytes begun.
pub proof fn law_b64_length(s: Seq<u8>)
    ensures
        b64(s).len() == (s.len() + 2) / 3 * 4,
    decreases s.len(),
{
    if s.len() > 2 {
        law_b64_length(s.skip(3));
    }
}

/// The longest input that is encoded is the longest whose Base64 form fits in a
/// string.
pub proof fn law_longest_fits(s: Seq<u8>)
    ensures
        s.len() <= MAX_ENCODE <==> b64(s).len() <= isize::MAX,
{
    law_b64_length(s);
}

} // verus!
