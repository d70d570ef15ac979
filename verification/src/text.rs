//! Text helpers: decimal numbers, substring search and percent-encoding.

use vstd::prelude::*;
use vstd::utf8::encode_utf8;

verus! {

/// `String::push` of std appends the one character to the end of the string.
pub assume_specification[ String::push ](s: &mut String, c: char)
    ensures
        final(s)@ == old(s)@.push(c),
;

/// The character that stands for the decimal digit `d`.
pub open spec fn digit(d: int) -> char
    recommends
        0 <= d < 10,
{
    (48 + d) as char
}

/// The decimal numeral of `n`, without sign and without leading zeros.
pub open spec fn decimal(n: nat) -> Seq<char>
    decreases n,
{
    if n < 10 {
        seq![digit(n as int)]
    } else {
        decimal(n / 10).push(digit((n % 10) as int))
    }
}

/// Appends the decimal numeral of `n` to `out`.
pub fn push_decimal(out: &mut String, n: u128)
    ensures
        final(out)@ == old(out)@ + decimal(n as nat),
    decreases n,
{
    if n >= 10 {
        push_decimal(out, n / 10);
    }
    let d: u8 = (n % 10) as u8;
    out.push((48u8 + d) as char);
    proof {
        let before = old(out)@;
        if n >= 10 {
            assert((before + decimal((n / 10) as nat)).push(digit((n % 10) as int)) =~= before
                + decimal(n as nat));
        } else {
            assert(before.push(digit(n as int)) =~= before + decimal(n as nat));
        }
    }
}

/// Whether `part` stands in `text` from position `at` on.
pub open spec fn occurs_at(text: Seq<char>, part: Seq<char>, at: int) -> bool {
    &&& 0 <= at
    &&& at + part.len() <= text.len()
    &&& text.subrange(at, at + part.len()) == part
}

/// Whether `part` stands somewhere in `text`, as one unbroken run.
pub open spec fn occurs_in(text: Seq<char>, part: Seq<char>) -> bool {
    exists|at: int| occurs_at(text, part, at)
}

/// The characters of `s`, one by one.
pub fn chars_of(s: &str) -> (v: Vec<char>)
    ensures
        v@ == s@,
{
    let mut v: Vec<char> = Vec::new();
    for c in it: s.chars()
        invariant
            it.seq() == s@,
            v@ == it.seq().take(it.index()),
    {
        v.push(c);
    }
    v
}

/// Whether `part` stands in `text` at `at`, compared character by character.
fn matches_at(text: &Vec<char>, part: &Vec<char>, at: usize) -> (r: bool)
    requires
        at + part.len() <= text.len(),
    ensures
        r == occurs_at(text@, part@, at as int),
{
    let mut k: usize = 0;
    while k < part.len()
        invariant
            k <= part.len(),
            at + part.len() <= text.len(),
            forall|j: int| 0 <= j < k ==> text@[at + j] == part@[j],
        decreases part.len() - k,
    {
        if text[at + k] != part[k] {
            proof {
                let window = text@.subrange(at as int, at + part.len());
                assert(window[k as int] == text@[at + k]);
            }
            return false;
        }
        k += 1;
    }
    assert(text@.subrange(at as int, at + part.len()) =~= part@);
    true
}

/// Whether `part` occurs in `text`. The empty text occurs in every text.
pub fn contains(text: &str, part: &str) -> (r: bool)
    ensures
        r == occurs_in(text@, part@),
{
    let hay = chars_of(text);
    let needle = chars_of(part);
    if needle.len() > hay.len() {
        return false;
    }
    let last: usize = hay.len() - needle.len();
    let mut at: usize = 0;
    loop
        invariant
            hay@ == text@,
            needle@ == part@,
            needle.len() <= hay.len(),
            last == hay.len() - needle.len(),
            at <= last,
            forall|j: int| 0 <= j < at ==> !occurs_at(text@, part@, j),
        decreases last - at,
    {
        if matches_at(&hay, &needle, at) {
            return true;
        }
        if at == last {
            return false;
        }
        at += 1;
    }
}

/// Whether the byte may stand in a URL as it is: a letter or digit of ASCII,
/// or one of `-`, `.`, `_` and `~`.
pub open spec fn is_unreserved(b: u8) -> bool {
    ||| 0x41 <= b <= 0x5a
    ||| 0x61 <= b <= 0x7a
    ||| 0x30 <= b <= 0x39
    ||| b == 0x2d
    ||| b == 0x2e
    ||| b == 0x5f
    ||| b == 0x7e
}

/// The character that stands for the hexadecimal digit `v`, in upper case.
pub open spec fn hex_digit(v: int) -> char
    recommends
        0 <= v < 16,
{
    if v < 10 {
        (48 + v) as char
    } else {
        (55 + v) as char
    }
}

/// What one byte becomes in a URL: itself where it is unreserved, else `%` and
/// its two hexadecimal digits.
pub open spec fn escaped(b: u8) -> Seq<char> {
    if is_unreserved(b) {
        seq![b as char]
    } else {
        seq!['%', hex_digit(b as int / 16), hex_digit(b as int % 16)]
    }
}

/// The percent-encoding of a run of bytes.
pub open spec fn percent_encoded(bytes: Seq<u8>) -> Seq<char> {
    bytes.map_values(|b: u8| escaped(b)).flatten()
}

/// The value of a hexadecimal digit that `hex_digit` writes.
pub open spec fn hex_value(c: char) -> int {
    if c as int <= 57 {
        c as int - 48
    } else {
        c as int - 55
    }
}

/// The bytes that a percent-encoded text stands for: `%` and two digits
/// stand for one byte, every other character for itself.
pub open spec fn percent_decoded(text: Seq<char>) -> Seq<u8>
    decreases text.len(),
{
    if text.len() == 0 {
        Seq::empty()
    } else if text[0] == '%' && text.len() >= 3 {
        seq![(hex_value(text[1]) * 16 + hex_value(text[2])) as u8] + percent_decoded(text.skip(3))
    } else {
        seq![text[0] as u8] + percent_decoded(text.skip(1))
    }
}

/// The encoding of a run of bytes is the encoding of its first byte and then
/// that of the rest.
pub proof fn lemma_percent_encoded_first(bytes: Seq<u8>)
    requires
        bytes.len() > 0,
    ensures
        percent_encoded(bytes) == escaped(bytes[0]) + percent_encoded(bytes.drop_first()),
{
    let parts = bytes.map_values(|b: u8| escaped(b));
    assert(parts.drop_first() =~= bytes.drop_first().map_values(|b: u8| escaped(b)));
}

/// Percent-encoding writes nothing but unreserved characters and `%`: no
/// comma, no space, nothing that would end or split the value it stands in.
pub proof fn lemma_percent_encoded_is_plain(bytes: Seq<u8>, i: int)
    requires
        0 <= i < percent_encoded(bytes).len(),
    ensures
        percent_encoded(bytes)[i] == '%' || exists|b: u8|
            is_unreserved(b) && percent_encoded(bytes)[i] == b as char,
    decreases bytes.len(),
{
    if bytes.len() > 0 {
        lemma_percent_encoded_first(bytes);
        let head = escaped(bytes[0]);
        if i < head.len() {
            let c = head[i];
            if is_unreserved(bytes[0]) {
                assert(c == bytes[0] as char);
            } else if i > 0 {
                let v = if i == 1 {
                    bytes[0] as int / 16
                } else {
                    bytes[0] as int % 16
                };
                assert(c == hex_digit(v));
                let b = if v < 10 {
                    (48 + v) as u8
                } else {
                    (55 + v) as u8
                };
                assert(is_unreserved(b) && c == b as char);
            }
        } else {
            lemma_percent_encoded_is_plain(bytes.drop_first(), i - head.len());
        }
    } else {
        assert(bytes.map_values(|b: u8| escaped(b)) =~= Seq::<Seq<char>>::empty());
    }
}

/// Nothing is lost in percent-encoding: the text stands for the very bytes
/// that were encoded, so that two runs of bytes with one encoding are one run.
pub proof fn lemma_percent_round_trip(bytes: Seq<u8>)
    ensures
        percent_decoded(percent_encoded(bytes)) == bytes,
    decreases bytes.len(),
{
    if bytes.len() > 0 {
        lemma_percent_encoded_first(bytes);
        lemma_percent_round_trip(bytes.drop_first());
        let b = bytes[0];
        let rest = percent_encoded(bytes.drop_first());
        let text = escaped(b) + rest;
        if is_unreserved(b) {
            assert(text[0] == b as char);
            assert(text.skip(1) =~= rest);
        } else {
            assert(text[0] == '%');
            assert(text[1] == hex_digit(b as int / 16));
            assert(text[2] == hex_digit(b as int % 16));
            assert(hex_value(text[1]) == b as int / 16);
            assert(hex_value(text[2]) == b as int % 16);
            assert(text.skip(3) =~= rest);
        }
        assert(seq![b] + bytes.drop_first() =~= bytes);
    } else {
        assert(bytes.map_values(|b: u8| escaped(b)) =~= Seq::<Seq<char>>::empty());
    }
}

/// Whether the character is one that may stand in the path or the query of
/// an address: an unreserved character, `%`, or one of the separators `/`,
/// `?`, `=` and `&`.
pub open spec fn is_address_char(c: char) -> bool {
    let n = c as int;
    ||| 0x41 <= n <= 0x5a
    ||| 0x61 <= n <= 0x7a
    ||| 0x30 <= n <= 0x39
    ||| n == 0x2d
    ||| n == 0x2e
    ||| n == 0x5f
    ||| n == 0x7e
    ||| n == 0x25
    ||| n == 0x2f
    ||| n == 0x3f
    ||| n == 0x3d
    ||| n == 0x26
}

/// Whether the character is one of the separators `/`, `?`, `=` and `&`.
pub open spec fn is_separator(c: char) -> bool {
    c == '/' || c == '?' || c == '=' || c == '&'
}

/// Whether every character of `s` may stand in an address.
pub open spec fn is_address_text(s: Seq<char>) -> bool {
    forall|i: int| 0 <= i < s.len() ==> is_address_char(#[trigger] s[i])
}

/// Whether `s` holds no separator.
pub open spec fn is_one_part(s: Seq<char>) -> bool {
    forall|i: int| 0 <= i < s.len() ==> !is_separator(#[trigger] s[i])
}

/// A percent-encoded value may stand in an address, and holds no separator:
/// whatever was encoded, it stays one part of the address.
pub proof fn lemma_percent_encoded_is_one_part(bytes: Seq<u8>)
    ensures
        is_address_text(percent_encoded(bytes)),
        is_one_part(percent_encoded(bytes)),
{
    assert forall|i: int| 0 <= i < percent_encoded(bytes).len() implies is_address_char(
        #[trigger] percent_encoded(bytes)[i],
    ) && !is_separator(percent_encoded(bytes)[i]) by {
        lemma_percent_encoded_is_plain(bytes, i);
    }
}

/// A decimal numeral may stand in an address.
pub proof fn lemma_decimal_is_address_text(n: nat)
    ensures
        is_address_text(decimal(n)),
    decreases n,
{
    if n >= 10 {
        lemma_decimal_is_address_text(n / 10);
    }
}

fn unreserved(b: u8) -> (r: bool)
    ensures
        r == is_unreserved(b),
{
    (0x41 <= b && b <= 0x5a) || (0x61 <= b && b <= 0x7a) || (0x30 <= b && b <= 0x39) || b == 0x2d
        || b == 0x2e || b == 0x5f || b == 0x7e
}

fn hex_char(v: u8) -> (c: char)
    requires
        v < 16,
    ensures
        c == hex_digit(v as int),
{
    if v < 10 {
        (48u8 + v) as char
    } else {
        (55u8 + v) as char
    }
}

/// Appends to `out` the percent-encoding of the UTF-8 bytes of `s`.
pub fn push_percent_encoded(out: &mut String, s: &str)
    ensures
        final(out)@ == old(out)@ + percent_encoded(encode_utf8(s@)),
{
    let bytes = s.as_bytes();
    let mut i: usize = 0;
    while i < bytes.len()
        invariant
            i <= bytes.len(),
            bytes@ == encode_utf8(s@),
            out@ == old(out)@ + percent_encoded(bytes@.take(i as int)),
        decreases bytes.len() - i,
    {
        let b = bytes[i];
        let ghost before = out@;
        if unreserved(b) {
            out.push(b as char);
        } else {
            out.push('%');
            out.push(hex_char(b / 16));
            out.push(hex_char(b % 16));
        }
        proof {
            let done = bytes@.take(i as int);
            assert(bytes@.take(i + 1) =~= done.push(b));
            assert(done.push(b).map_values(|b: u8| escaped(b)) =~= done.map_values(
                |b: u8| escaped(b),
            ).push(escaped(b)));
            done.map_values(|b: u8| escaped(b)).lemma_flatten_push(escaped(b));
            assert(out@ =~= before + escaped(b));
        }
        i += 1;
    }
    assert(bytes@.take(i as int) =~= bytes@);
}

} // verus!
