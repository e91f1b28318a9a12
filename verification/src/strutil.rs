//! String helpers shared by the codec and the text utilities: lossy UTF-8
//! decoding of wire bytes, single-character appends, and decimal formatting.

use vstd::prelude::*;

verus! {

use vstd::utf8::{valid_utf8, decode_utf8};

/// The characters `String::from_utf8_lossy` produces for a byte sequence
/// that is not valid UTF-8.  The substitution depends on the bytes alone.
pub uninterp spec fn lossy_decode(bytes: Seq<u8>) -> Seq<char>;

/// The characters a byte sequence decodes to: valid UTF-8 decodes exactly,
/// anything else goes through the lossy substitution.
pub open spec fn utf8_or_lossy(bytes: Seq<u8>) -> Seq<char> {
    if valid_utf8(bytes) {
        decode_utf8(bytes)
    } else {
        lossy_decode(bytes)
    }
}

/// Relies on `String::from_utf8_lossy` (the `into_owned` only unwraps the
/// copy-on-write result): valid UTF-8 passes through unchanged, and invalid
/// sequences are replaced by a substitution that depends on the bytes alone.
#[verifier::external_body]
pub fn lossy_string(bytes: &[u8]) -> (r: String)
    ensures
        r@ == utf8_or_lossy(bytes@),
        !valid_utf8(bytes@) ==> r@ == lossy_decode(bytes@),
{
    String::from_utf8_lossy(bytes).into_owned()
}

/// Relies on `String::push`: appends exactly the one character.
#[verifier::external_body]
pub fn push_char(s: &mut String, c: char)
    ensures
        final(s)@ == old(s)@ + seq![c],
{
    s.push(c);
}

/// The decimal digits of `n`, most significant first.
pub open spec fn spec_decimal(n: nat) -> Seq<char>
    decreases n,
{
    if n < 10 {
        seq![spec_digit_char(n % 10)]
    } else {
        spec_decimal(n / 10) + seq![spec_digit_char(n % 10)]
    }
}

/// The character for a single decimal digit.
pub open spec fn spec_digit_char(d: nat) -> char {
    if d == 0 {
        '0'
    } else if d == 1 {
        '1'
    } else if d == 2 {
        '2'
    } else if d == 3 {
        '3'
    } else if d == 4 {
        '4'
    } else if d == 5 {
        '5'
    } else if d == 6 {
        '6'
    } else if d == 7 {
        '7'
    } else if d == 8 {
        '8'
    } else {
        '9'
    }
}

/// Appends the decimal digits of `n` to `out`.
pub fn push_decimal(out: &mut String, n: u64)
    ensures
        final(out)@ == old(out)@ + spec_decimal(n as nat),
    decreases n,
{
    if n < 10 {
        push_digit(out, (n % 10) as u8);
    } else {
        push_decimal(out, n / 10);
        push_digit(out, (n % 10) as u8);
    }
}

/// Appends one decimal digit character to `out`.
pub fn push_digit(out: &mut String, d: u8)
    requires
        d < 10,
    ensures
        final(out)@ == old(out)@ + seq![spec_digit_char(d as nat)],
{
    let c: char = if d == 0 {
        '0'
    } else if d == 1 {
        '1'
    } else if d == 2 {
        '2'
    } else if d == 3 {
        '3'
    } else if d == 4 {
        '4'
    } else if d == 5 {
        '5'
    } else if d == 6 {
        '6'
    } else if d == 7 {
        '7'
    } else if d == 8 {
        '8'
    } else {
        '9'
    };
    push_char(out, c);
}

/// The decimal rendering of `n` as a fresh string.
pub fn u64_to_string(n: u64) -> (r: String)
    ensures
        r@ == spec_decimal(n as nat),
{
    let mut out = String::new();
    push_decimal(&mut out, n);
    proof {
        assert(out@ =~= spec_decimal(n as nat));
    }
    out
}

} // verus!
