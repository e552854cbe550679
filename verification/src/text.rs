//! Text: the few string operations that the protocol code needs.

use vstd::prelude::*;
use vstd::utf8::*;

verus! {

/// What [`String::from_utf8_lossy`] makes of a run of octets.
pub uninterp spec fn utf8_lossy(bytes: Seq<u8>) -> Seq<char>;

/// Calls [`String::from_utf8_lossy`]. Its result is a function of the octets,
/// named [`utf8_lossy`]; of octets that are valid UTF-8 it is the text that
/// they encode. How invalid octets are replaced is not stated.
#[verifier::external_body]
pub(crate) fn string_from_utf8_lossy(bytes: &[u8]) -> (r: String)
    ensures
        r@ == utf8_lossy(bytes@),
        valid_utf8(bytes@) ==> r@ == decode_utf8(bytes@),
{
    String::from_utf8_lossy(bytes).into_owned()
}

/// [`String::push`] appends one character at the end.
pub assume_specification[ String::push ](s: &mut String, c: char)
    ensures
        final(s)@ == old(s)@.push(c),
;

/// What the debug formatter makes of a text: quoted, with escapes.
pub uninterp spec fn str_debug(s: Seq<char>) -> Seq<char>;

/// Formats a `str` with the debug formatter. The result is a function of the
/// text, named [`str_debug`]. Which characters are escaped is not stated.
#[verifier::external_body]
pub(crate) fn debug_str(s: &str) -> (r: String)
    ensures
        r@ == str_debug(s@),
{
    format!("{:?}", s)
}

/// The lower-case hexadecimal digit of a number below 16.
pub open spec fn hex_digit(d: int) -> char {
    if d < 10 {
        (48 + d) as char
    } else {
        (87 + d) as char
    }
}

/// Octets in lower-case hexadecimal, two digits each.
pub open spec fn hex(bytes: Seq<u8>) -> Seq<char>
    decreases bytes.len(),
{
    if bytes.len() == 0 {
        Seq::empty()
    } else {
        hex(bytes.drop_last()) + hex2(bytes.last())
    }
}

/// One octet in lower-case hexadecimal: two digits.
pub open spec fn hex2(b: u8) -> Seq<char> {
    seq![hex_digit(b as int / 16), hex_digit(b as int % 16)]
}

/// A number in decimal, without leading zeros.
pub open spec fn decimal(n: nat) -> Seq<char>
    decreases n,
{
    if n < 10 {
        seq![hex_digit(n as int)]
    } else {
        decimal(n / 10).push(hex_digit(n as int % 10))
    }
}

/// An optional octet as the debug formatter shows it: `None`, `Some(5)`.
pub open spec fn debug_option(v: Option<u8>) -> Seq<char> {
    match v {
        None => "None"@,
        Some(b) => "Some("@ + decimal(b as nat) + ")"@,
    }
}

/// A 16-bit number in lower-case hexadecimal: four digits.
pub open spec fn hex4(v: u16) -> Seq<char> {
    hex2((v / 256) as u8) + hex2((v % 256) as u8)
}

/// An optional text as the debug formatter shows it.
pub open spec fn debug_text(v: Option<Seq<char>>) -> Seq<char> {
    match v {
        None => "None"@,
        Some(s) => "Some("@ + str_debug(s) + ")"@,
    }
}

/// An optional 32-bit number as the debug formatter shows it.
pub open spec fn debug_u32(v: Option<u32>) -> Seq<char> {
    match v {
        None => "None"@,
        Some(n) => "Some("@ + decimal(n as nat) + ")"@,
    }
}

/// Octets in decimal, with commas between them.
pub open spec fn comma_list(v: Seq<u8>) -> Seq<char>
    decreases v.len(),
{
    if v.len() == 0 {
        Seq::empty()
    } else if v.len() == 1 {
        decimal(v[0] as nat)
    } else {
        comma_list(v.drop_last()) + ", "@ + decimal(v.last() as nat)
    }
}

/// Octets as the debug formatter shows a list of them: `[1, 2]`.
pub open spec fn debug_list(v: Seq<u8>) -> Seq<char> {
    "["@ + comma_list(v) + "]"@
}

fn digit_char(d: u8) -> (c: char)
    requires
        d < 16,
    ensures
        c == hex_digit(d as int),
{
    if d < 10 {
        (48 + d) as char
    } else {
        (87 + d) as char
    }
}

/// Appends an octet in lower-case hexadecimal, two digits.
pub fn push_hex2(s: &mut String, b: u8)
    ensures
        final(s)@ == old(s)@ + hex2(b),
{
    s.push(digit_char(b / 16));
    s.push(digit_char(b % 16));
}

/// Octets in lower-case hexadecimal, two digits each.
pub fn to_hex(bytes: &[u8]) -> (r: String)
    ensures
        r@ == hex(bytes@),
{
    let mut s = String::new();
    for i in 0..bytes.len()
        invariant
            s@ == hex(bytes@.take(i as int)),
    {
        push_hex2(&mut s, bytes[i]);
        assert(bytes@.take(i + 1).drop_last() =~= bytes@.take(i as int));
    }
    assert(bytes@.take(bytes@.len() as int) =~= bytes@);
    s
}

/// Appends a number in decimal.
pub fn push_decimal(s: &mut String, n: u64)
    ensures
        final(s)@ == old(s)@ + decimal(n as nat),
    decreases n,
{
    if n >= 10 {
        push_decimal(s, n / 10);
    }
    s.push(digit_char((n % 10) as u8));
}

/// An optional octet as the debug formatter shows it.
pub fn push_debug_option(s: &mut String, v: Option<u8>)
    ensures
        final(s)@ == old(s)@ + debug_option(v),
{
    match v {
        None => s.append("None"),
        Some(b) => {
            s.append("Some(");
            push_decimal(s, b as u64);
            s.append(")");
        },
    }
}

/// Appends a 16-bit number in lower-case hexadecimal, four digits.
pub fn push_hex4(s: &mut String, v: u16)
    ensures
        final(s)@ == old(s)@ + hex4(v),
{
    push_hex2(s, (v / 256) as u8);
    push_hex2(s, (v % 256) as u8);
    assert(s@ =~= old(s)@ + hex4(v));
}

/// Appends an optional text as the debug formatter shows it.
pub fn push_debug_text(s: &mut String, v: Option<&str>)
    ensures
        final(s)@ == old(s)@ + debug_text(
            match v {
                Some(t) => Some(t@),
                None => None,
            },
        ),
{
    match v {
        None => s.append("None"),
        Some(t) => {
            s.append("Some(");
            s.append(debug_str(t).as_str());
            s.append(")");
            assert(s@ =~= old(s)@ + ("Some("@ + str_debug(t@) + ")"@));
        },
    }
}

/// Appends an optional 32-bit number as the debug formatter shows it.
pub fn push_debug_u32(s: &mut String, v: Option<u32>)
    ensures
        final(s)@ == old(s)@ + debug_u32(v),
{
    match v {
        None => s.append("None"),
        Some(n) => {
            s.append("Some(");
            push_decimal(s, n as u64);
            s.append(")");
            assert(s@ =~= old(s)@ + ("Some("@ + decimal(n as nat) + ")"@));
        },
    }
}

/// Appends octets as the debug formatter shows a list of them.
pub fn push_debug_list(s: &mut String, v: &[u8])
    ensures
        final(s)@ == old(s)@ + debug_list(v@),
{
    s.append("[");
    let ghost before = s@;
    assert(before + comma_list(v@.take(0)) =~= before);
    for i in 0..v.len()
        invariant
            s@ == before + comma_list(v@.take(i as int)),
    {
        if i > 0 {
            s.append(", ");
        }
        push_decimal(s, v[i] as u64);
        assert(v@.take(i + 1).drop_last() =~= v@.take(i as int));
        assert(s@ =~= before + comma_list(v@.take(i + 1)));
    }
    assert(v@.take(v@.len() as int) =~= v@);
    s.append("]");
    assert(s@ =~= old(s)@ + debug_list(v@));
}

/// The hexadecimal form has two characters per octet, each of them a digit or
/// one of `a` to `f`.
pub proof fn law_hex_alphabet(bytes: Seq<u8>)
    ensures
        hex(bytes).len() == 2 * bytes.len(),
        forall|i: int|
            0 <= i < hex(bytes).len() ==> ('0' <= #[trigger] hex(bytes)[i] <= '9' || 'a' <= hex(
                bytes,
            )[i] <= 'f'),
    decreases bytes.len(),
{
    if bytes.len() > 0 {
        law_hex_alphabet(bytes.drop_last());
    }
}

} // verus!
