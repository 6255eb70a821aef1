//! Text helpers: case folding, trimming, number formatting and UTF-8.

use vstd::prelude::*;
use vstd::utf8::*;

verus! {

/// `String::push` of std: appends one character at the end.
pub assume_specification[ String::push ](s: &mut String, c: char)
    ensures
        final(s)@ == old(s)@.push(c),
;

/// What the `{:?}` format of std prints for a string: the text in double
/// quotes, with the characters that std escapes written as escapes.
pub uninterp spec fn debug_form(s: Seq<char>) -> Seq<char>;

/// `format!("{:?}", s)` of std. Its result is named, not described: it depends
/// on the text alone.
#[verifier::external_body]
pub(crate) fn debug_text(s: &str) -> (r: String)
    ensures
        r@ == debug_form(s@),
{
    format!("{s:?}")
}

/// `std::str::from_utf8`: the decoded text when the bytes are valid UTF-8,
/// `None` when they are not.
#[verifier::external_body]
pub(crate) fn utf8_text(bytes: &[u8]) -> (r: Option<&str>)
    ensures
        r is Some <==> valid_utf8(bytes@),
        r matches Some(s) ==> s@ == decode_utf8(bytes@),
{
    std::str::from_utf8(bytes).ok()
}

/// The text that `bytes` encode, or nothing when they are not UTF-8.
pub open spec fn text_or_empty(bytes: Seq<u8>) -> Seq<char> {
    if valid_utf8(bytes) {
        decode_utf8(bytes)
    } else {
        seq![]
    }
}

/// Decodes `bytes`, falling back to the empty text.
pub fn utf8_or_empty(bytes: &[u8]) -> (r: String)
    ensures
        r@ == text_or_empty(bytes@),
{
    match utf8_text(bytes) {
        Some(s) => s.to_owned(),
        None => String::new(),
    }
}

/// ASCII lower case of one character.
pub open spec fn lower_char(c: char) -> char {
    if 'A' <= c && c <= 'Z' {
        (c as u32 + 32) as char
    } else {
        c
    }
}

/// ASCII lower case of a text, character by character.
pub open spec fn lower(s: Seq<char>) -> Seq<char> {
    s.map_values(|c: char| lower_char(c))
}

/// ASCII lower case; characters other than `A` to `Z` stay as they are.
pub fn ascii_lower(s: &str) -> (r: String)
    ensures
        r@ == lower(s@),
{
    let mut out = String::new();
    for c in it: s.chars()
        invariant
            it.seq() == s@,
            out@.len() == it.index(),
            forall|i: int| 0 <= i < out@.len() ==> out@[i] == lower_char(s@[i]),
    {
        if c >= 'A' && c <= 'Z' {
            let b: u8 = c as u8 + 32;
            out.push(b as char);
        } else {
            out.push(c);
        }
    }
    out
}

/// Whether two texts are the same.
pub fn text_eq(a: &str, b: &str) -> (r: bool)
    ensures
        r == (a@ == b@),
{
    let x = a.as_bytes();
    let y = b.as_bytes();
    if x.len() != y.len() {
        return false;
    }
    let mut i: usize = 0;
    while i < x.len()
        invariant
            i <= x@.len(),
            x@.len() == y@.len(),
            x@ == encode_utf8(a@),
            y@ == encode_utf8(b@),
            forall|j: int| 0 <= j < i ==> x@[j] == y@[j],
        decreases x@.len() - i,
    {
        if x[i] != y[i] {
            return false;
        }
        i += 1;
    }
    proof {
        assert(x@ =~= y@);
        encode_utf8_decode_utf8(a@);
        encode_utf8_decode_utf8(b@);
    }
    true
}

/// The characters of a text, one per element.
pub fn chars_of(s: &str) -> (r: Vec<char>)
    ensures
        r@ == s@,
{
    let mut out: Vec<char> = Vec::new();
    for c in it: s.chars()
        invariant
            it.seq() == s@,
            out@ == s@.take(it.index() as int),
    {
        out.push(c);
    }
    out
}

/// Whether `hay` has `needle` as a contiguous part.
pub open spec fn has_part(hay: Seq<char>, needle: Seq<char>) -> bool {
    exists|i: int|
        0 <= i <= hay.len() - needle.len() && #[trigger] hay.subrange(i, i + needle.len())
            == needle
}

/// Whether `hay` contains `needle`.
pub fn contains_text(hay: &str, needle: &str) -> (r: bool)
    ensures
        r == has_part(hay@, needle@),
{
    let h = chars_of(hay);
    let n = chars_of(needle);
    let hl: usize = h.len();
    let nl: usize = n.len();
    let mut i: usize = 0;
    while i <= hl && nl <= hl - i
        invariant
            h@ == hay@,
            n@ == needle@,
            hl == h@.len(),
            nl == n@.len(),
            i <= hl + 1,
            forall|j: int| 0 <= j < i ==> #[trigger] h@.subrange(j, j + nl) != n@,
        decreases hl + 1 - i,
    {
        let mut k: usize = 0;
        while k < nl && h[i + k] == n[k]
            invariant
                k <= nl,
                i <= hl,
                nl <= hl - i,
                hl == h@.len(),
                nl == n@.len(),
                forall|j: int| 0 <= j < k ==> h@[i + j] == n@[j],
            decreases nl - k,
        {
            k += 1;
        }
        if k == nl {
            proof {
                assert(h@.subrange(i as int, i + nl) =~= n@);
            }
            return true;
        }
        proof {
            assert(h@.subrange(i as int, i + nl)[k as int] != n@[k as int]);
        }
        if i == hl {
            return false;
        }
        i += 1;
    }
    false
}

/// Whether `s` begins with `prefix`.
pub fn starts_with_text(s: &str, prefix: &str) -> (r: bool)
    ensures
        r == prefix@.is_prefix_of(s@),
{
    let h = chars_of(s);
    let n = chars_of(prefix);
    if n.len() > h.len() {
        return false;
    }
    let mut k: usize = 0;
    while k < n.len()
        invariant
            k <= n@.len() <= h@.len(),
            h@ == s@,
            n@ == prefix@,
            forall|j: int| 0 <= j < k ==> h@[j] == n@[j],
        decreases n@.len() - k,
    {
        if h[k] != n[k] {
            proof {
                assert(h@.subrange(0, n@.len() as int)[k as int] != n@[k as int]);
            }
            return false;
        }
        k += 1;
    }
    proof {
        assert(h@.subrange(0, n@.len() as int) =~= n@);
    }
    true
}

/// Unicode White_Space.
pub open spec fn white(c: char) -> bool {
    ||| 0x09 <= c as u32 <= 0x0D
    ||| c as u32 == 0x20
    ||| c as u32 == 0x85
    ||| c as u32 == 0xA0
    ||| c as u32 == 0x1680
    ||| 0x2000 <= c as u32 <= 0x200A
    ||| c as u32 == 0x2028
    ||| c as u32 == 0x2029
    ||| c as u32 == 0x202F
    ||| c as u32 == 0x205F
    ||| c as u32 == 0x3000
}

/// Whether a character is Unicode White_Space.
pub fn is_white(c: char) -> (r: bool)
    ensures
        r == white(c),
{
    let u: u32 = c as u32;
    (0x09 <= u && u <= 0x0D) || u == 0x20 || u == 0x85 || u == 0xA0 || u == 0x1680 || (0x2000 <= u
        && u <= 0x200A) || u == 0x2028 || u == 0x2029 || u == 0x202F || u == 0x205F || u == 0x3000
}

/// `s` without the white space at its end.
pub open spec fn trimmed_end(s: Seq<char>) -> Seq<char>
    decreases s.len(),
{
    if s.len() > 0 && white(s.last()) {
        trimmed_end(s.drop_last())
    } else {
        s
    }
}

/// `s` without the white space at its start.
pub open spec fn trimmed_start(s: Seq<char>) -> Seq<char>
    decreases s.len(),
{
    if s.len() > 0 && white(s.first()) {
        trimmed_start(s.drop_first())
    } else {
        s
    }
}

/// `s` without the NUL characters at its end.
pub open spec fn without_trailing_nul(s: Seq<char>) -> Seq<char>
    decreases s.len(),
{
    if s.len() > 0 && s.last() == '\0' {
        without_trailing_nul(s.drop_last())
    } else {
        s
    }
}

/// Drops the white space at the end.
pub fn trim_end(chars: &mut Vec<char>)
    ensures
        final(chars)@ == trimmed_end(old(chars)@),
{
    while chars.len() > 0 && is_white(chars[chars.len() - 1])
        invariant
            trimmed_end(chars@) == trimmed_end(old(chars)@),
        decreases chars@.len(),
    {
        let ghost before = chars@;
        chars.pop();
        proof {
            assert(chars@ =~= before.drop_last());
        }
    }
}

/// Drops the NUL characters at the end.
pub fn trim_end_nul(chars: &mut Vec<char>)
    ensures
        final(chars)@ == without_trailing_nul(old(chars)@),
{
    while chars.len() > 0 && chars[chars.len() - 1] == '\0'
        invariant
            without_trailing_nul(chars@) == without_trailing_nul(old(chars)@),
        decreases chars@.len(),
    {
        let ghost before = chars@;
        chars.pop();
        proof {
            assert(chars@ =~= before.drop_last());
        }
    }
}

/// The text of `chars` without the white space at its start.
pub fn text_trimmed_start(chars: &Vec<char>) -> (r: String)
    ensures
        r@ == trimmed_start(chars@),
{
    let mut from: usize = 0;
    proof {
        assert(chars@.skip(0) =~= chars@);
    }
    while from < chars.len() && is_white(chars[from])
        invariant
            from <= chars@.len(),
            trimmed_start(chars@.skip(from as int)) == trimmed_start(chars@),
        decreases chars@.len() - from,
    {
        proof {
            assert(chars@.skip(from as int).drop_first() =~= chars@.skip(from + 1));
        }
        from += 1;
    }
    let mut out = String::new();
    let mut i: usize = from;
    while i < chars.len()
        invariant
            from <= i <= chars@.len(),
            out@ == chars@.subrange(from as int, i as int),
        decreases chars@.len() - i,
    {
        out.push(chars[i]);
        i += 1;
    }
    proof {
        assert(out@ =~= chars@.skip(from as int));
    }
    out
}

/// The text made of `chars`.
pub fn text_of(chars: &Vec<char>) -> (r: String)
    ensures
        r@ == chars@,
{
    let mut out = String::new();
    let mut i: usize = 0;
    while i < chars.len()
        invariant
            i <= chars@.len(),
            out@ == chars@.take(i as int),
        decreases chars@.len() - i,
    {
        out.push(chars[i]);
        i += 1;
    }
    out
}

/// A decimal digit.
pub open spec fn dec_digit(d: int) -> char {
    (48 + d) as char
}

/// `n` in decimal.
pub open spec fn dec(n: nat) -> Seq<char>
    decreases n,
{
    if n < 10 {
        seq![dec_digit(n as int)]
    } else {
        dec(n / 10).push(dec_digit((n % 10) as int))
    }
}

/// Appends `n` in decimal.
pub fn push_dec(out: &mut String, n: u128)
    ensures
        final(out)@ == old(out)@ + dec(n as nat),
    decreases n,
{
    if n >= 10 {
        push_dec(out, n / 10);
    }
    let d: u8 = 48 + (n % 10) as u8;
    out.push(d as char);
}

/// An upper-case hexadecimal digit.
pub open spec fn hex_digit(d: int) -> char {
    if d < 10 {
        (48 + d) as char
    } else {
        (55 + d) as char
    }
}

/// `n` in upper-case hexadecimal, with zeros in front up to `width` digits.
pub open spec fn hex(n: nat, width: nat) -> Seq<char>
    decreases n + width,
{
    if n >= 16 || width > 1 {
        hex(n / 16, if width > 1 { (width - 1) as nat } else { 0 }).push(hex_digit((n % 16) as int))
    } else {
        seq![hex_digit(n as int)]
    }
}

/// Appends `n` in upper-case hexadecimal, at least `width` digits wide.
pub fn push_hex(out: &mut String, n: u64, width: u32)
    ensures
        final(out)@ == old(out)@ + hex(n as nat, width as nat),
    decreases n + width,
{
    if n >= 16 || width > 1 {
        push_hex(out, n / 16, if width > 1 { width - 1 } else { 0 });
    }
    let d: u8 = (n % 16) as u8;
    let b: u8 = if d < 10 { 48 + d } else { 55 + d };
    out.push(b as char);
}

/// `n` in lower-case hexadecimal, at least `width` digits wide.
pub fn lower_hex(n: u64, width: u32) -> (r: String)
    ensures
        r@ == lower(hex(n as nat, width as nat)),
{
    let mut up = String::new();
    push_hex(&mut up, n, width);
    proof {
        assert(up@ =~= hex(n as nat, width as nat));
    }
    ascii_lower(up.as_str())
}

/// Folding case touches the letters `A` to `Z` alone, each of which becomes the
/// small letter 32 places on; folding twice is folding once.
pub proof fn law_lower(s: Seq<char>, i: int)
    requires
        0 <= i < s.len(),
    ensures
        lower(s).len() == s.len(),
        'A' <= s[i] <= 'Z' ==> lower(s)[i] as u32 == s[i] as u32 + 32,
        !('A' <= s[i] <= 'Z') ==> lower(s)[i] == s[i],
        lower(lower(s)) == lower(s),
{
    assert(lower(lower(s)) =~= lower(s));
}

/// Printable ASCII other than the space is no white space; the space, tabs and
/// line ends are.
pub proof fn law_ascii_white(c: char)
    requires
        c as u32 <= 127,
    ensures
        white(c) <==> c == ' ' || c == '\t' || c == '\n' || c == '\u{b}' || c == '\u{c}' || c
            == '\r',
{
}

/// `n` spaces.
pub open spec fn spaces(n: nat) -> Seq<char> {
    Seq::new(n, |i: int| ' ')
}

/// A word that neither starts nor ends with white space comes out of the spaces
/// around it.
pub proof fn law_trims_padding(t: Seq<char>, before: nat, after: nat)
    requires
        t.len() > 0 ==> 0x21 <= t.first() as u32 <= 0x7E && 0x21 <= t.last() as u32 <= 0x7E,
    ensures
        trimmed_end(t + spaces(after)) == t,
        t.len() > 0 ==> trimmed_start(spaces(before) + t) == t,
        trimmed_start(trimmed_end(spaces(before) + t + spaces(after))) == t,
    decreases before + after,
{
    if after > 0 {
        let s = t + spaces(after);
        law_trims_padding(t, before, (after - 1) as nat);
        assert(s.drop_last() =~= t + spaces((after - 1) as nat));
        let w = spaces(before) + t + spaces(after);
        assert(w.drop_last() =~= spaces(before) + t + spaces((after - 1) as nat));
        assert(w.last() == ' ');
    } else {
        assert(t + spaces(0) =~= t);
        let w = spaces(before) + t + spaces(0);
        assert(w =~= spaces(before) + t);
        if t.len() > 0 {
            assert(w.last() == t.last());
            assert(trimmed_end(w) == w);
            if before > 0 {
                law_trims_padding(t, (before - 1) as nat, 0);
                assert(w.drop_first() =~= spaces((before - 1) as nat) + t);
                assert(w.first() == ' ');
            } else {
                assert(w =~= t);
            }
        } else if before > 0 {
            law_trims_padding(t, (before - 1) as nat, 0);
            assert(w.drop_last() =~= spaces((before - 1) as nat) + t + spaces(0));
            assert(w.last() == ' ');
        } else {
            assert(w =~= t);
        }
    }
}

/// The NULs behind a text that does not end with one are dropped.
pub proof fn law_drops_nuls(t: Seq<char>, n: nat)
    requires
        t.len() > 0 ==> t.last() != '\0',
    ensures
        without_trailing_nul(t + Seq::new(n, |i: int| '\0')) == t,
    decreases n,
{
    let s = t + Seq::new(n, |i: int| '\0');
    if n > 0 {
        law_drops_nuls(t, (n - 1) as nat);
        assert(s.drop_last() =~= t + Seq::new((n - 1) as nat, |i: int| '\0'));
    } else {
        assert(s =~= t);
    }
}

/// What a digit counts for.
pub open spec fn digit_value(c: char) -> int {
    if '0' <= c <= '9' {
        c as int - '0' as int
    } else {
        c as int - 'A' as int + 10
    }
}

/// The number that digits stand for, the most significant one first.
pub open spec fn digits_value(s: Seq<char>, base: int) -> int
    decreases s.len(),
{
    if s.len() == 0 {
        0
    } else {
        base * digits_value(s.drop_last(), base) + digit_value(s.last())
    }
}

/// Decimal digits stand for the number that was written, with no zero in front.
pub proof fn law_dec_value(n: nat)
    ensures
        digits_value(dec(n), 10) == n,
        dec(n).len() > 0,
        forall|i: int| 0 <= i < dec(n).len() ==> '0' <= #[trigger] dec(n)[i] <= '9',
        n > 0 ==> dec(n)[0] != '0',
    decreases n,
{
    if n < 10 {
        let s = seq![dec_digit(n as int)];
        assert(s.drop_last() =~= seq![]);
        assert(digits_value(s.drop_last(), 10) == 0);
        assert(s.last() as int == 48 + n);
    } else {
        law_dec_value(n / 10);
        let s = dec(n);
        assert(s.drop_last() =~= dec(n / 10));
        assert(s.last() as int == 48 + n % 10);
        assert(s[0] == dec(n / 10)[0]);
    }
}

/// Hexadecimal digits stand for the number that was written, at least `width` of
/// them, and with zeros in front only to reach that many.
pub proof fn law_hex_value(n: nat, width: nat)
    ensures
        digits_value(hex(n, width), 16) == n,
        hex(n, width).len() >= width,
        hex(n, width).len() >= 1,
        forall|i: int|
            0 <= i < hex(n, width).len() ==> '0' <= #[trigger] hex(n, width)[i] <= '9' || 'A'
                <= hex(n, width)[i] <= 'F',
        hex(n, width).len() > width && hex(n, width).len() > 1 ==> hex(n, width)[0] != '0',
        n > 0 && width <= 1 ==> hex(n, width)[0] != '0',
    decreases n + width,
{
    let s = hex(n, width);
    if n >= 16 || width > 1 {
        let w = if width > 1 {
            (width - 1) as nat
        } else {
            0
        };
        law_hex_value(n / 16, w);
        assert(s.drop_last() =~= hex(n / 16, w));
        assert(s[0] == hex(n / 16, w)[0]);
        lemma_hex_digit((n % 16) as int);
        assert(s.last() == hex_digit((n % 16) as int));
        assert(digits_value(s, 16) == 16 * digits_value(hex(n / 16, w), 16) + digit_value(s.last()));
    } else {
        assert(s.drop_last() =~= seq![]);
        assert(digits_value(s.drop_last(), 16) == 0);
        lemma_hex_digit(n as int);
    }
}

proof fn lemma_hex_digit(d: int)
    requires
        0 <= d < 16,
    ensures
        digit_value(hex_digit(d)) == d,
        '0' <= hex_digit(d) <= '9' || 'A' <= hex_digit(d) <= 'F',
        d > 0 ==> hex_digit(d) != '0',
{
}

/// A part of a text is found wherever it stands, and a text that is found is there.
pub proof fn law_has_part(before: Seq<char>, part: Seq<char>, after: Seq<char>, hay: Seq<char>)
    ensures
        has_part(before + part + after, part),
        has_part(hay, part) ==> exists|i: int|
            0 <= i && i + part.len() <= hay.len() && #[trigger] hay.subrange(i, i + part.len())
                == part,
{
    let s = before + part + after;
    let n = before.len() as int;
    assert(s.subrange(n, n + part.len()) =~= part);
}

/// White space outside ASCII: the next-line and no-break characters, the spaces of
/// various widths, and the line and paragraph separators.
pub proof fn law_wide_white(c: char)
    requires
        c as u32 > 127,
    ensures
        white(c) <==> c == '\u{85}' || c == '\u{a0}' || c == '\u{1680}' || '\u{2000}' <= c
            <= '\u{200a}' || c == '\u{2028}' || c == '\u{2029}' || c == '\u{202f}' || c
            == '\u{205f}' || c == '\u{3000}',
{
}

/// Nothing but spaces trims to nothing, from either end.
pub proof fn law_trims_blank(n: nat)
    ensures
        trimmed_start(spaces(n)).len() == 0,
        trimmed_end(spaces(n)).len() == 0,
    decreases n,
{
    if n > 0 {
        law_trims_blank((n - 1) as nat);
        assert(spaces(n).drop_first() =~= spaces((n - 1) as nat));
        assert(spaces(n).drop_last() =~= spaces((n - 1) as nat));
    }
}

} // verus!
