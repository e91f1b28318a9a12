//! Title and filename normalization used when matching a game against a
//! catalogue of box-art names, and the percent-encoding that catalogue's
//! URLs use.

use vstd::prelude::*;

verus! {

use vstd::utf8::encode_utf8;
use vstd::string::StrSliceExecFns;
use crate::strutil::push_char;

/// The Unicode lowercase mapping of a character sequence; a function of
/// the characters alone.
pub uninterp spec fn lower_chars(s: Seq<char>) -> Seq<char>;

/// Relies on `str::to_lowercase`: the Unicode lowercase mapping, a
/// function of the characters alone.
#[verifier::external_body]
fn to_lowercase_str(s: &str) -> (r: String)
    ensures
        r@ == lower_chars(s@),
{
    s.to_lowercase()
}

/// The punctuation a title comparison ignores.
pub open spec fn is_title_punct(c: char) -> bool {
    c == ':' || c == '-' || c == '\'' || c == '"' || c == '!' || c == '?' || c == '.' || c == ','
}

/// The whitespace a title comparison collapses.
pub open spec fn is_title_space(c: char) -> bool {
    c == ' ' || c == '\t' || c == '\n' || c == '\r'
}

/// The normalized rest of a title: punctuation dropped and whitespace runs
/// collapsed to single spaces between words.  `started` says whether a
/// word was already written, `pending` whether a separating space is owed
/// before the next one.
pub open spec fn spec_normalize(s: Seq<char>, started: bool, pending: bool) -> Seq<char>
    decreases s.len(),
{
    if s.len() == 0 {
        Seq::empty()
    } else if is_title_punct(s[0]) {
        spec_normalize(s.drop_first(), started, pending)
    } else if is_title_space(s[0]) {
        spec_normalize(s.drop_first(), started, started)
    } else {
        (if pending {
            seq![' ']
        } else {
            Seq::empty()
        }) + seq![s[0]] + spec_normalize(s.drop_first(), true, false)
    }
}

/// Normalizes a game title for comparison: lowercased, the common
/// punctuation removed, and whitespace runs collapsed to single spaces.
pub fn normalize_title(title: &str) -> (r: String)
    ensures
        r@ == spec_normalize(lower_chars(title@), false, false),
{
    let lowered = to_lowercase_str(title);
    let s = lowered.as_str();
    let n = s.unicode_len();
    let mut out = String::new();
    let mut started = false;
    let mut pending = false;
    let mut i: usize = 0;
    proof {
        assert(s@.skip(0) =~= s@);
        assert(out@ + spec_normalize(s@, false, false) =~= spec_normalize(s@, false, false));
    }
    while i < n
        invariant
            i <= n,
            n == s@.len(),
            spec_normalize(s@, false, false) == out@ + spec_normalize(
                s@.skip(i as int),
                started,
                pending,
            ),
        decreases n - i,
    {
        let c = s.get_char(i);
        proof {
            assert(s@.skip(i as int)[0] == s@[i as int]);
            assert(s@.skip(i as int).drop_first() =~= s@.skip(i + 1));
        }
        if c == ':' || c == '-' || c == '\'' || c == '"' || c == '!' || c == '?' || c == '.' || c
            == ',' {
        } else if c == ' ' || c == '\t' || c == '\n' || c == '\r' {
            pending = started;
        } else {
            if pending {
                push_char(&mut out, ' ');
            }
            push_char(&mut out, c);
            started = true;
            pending = false;
        }
        i += 1;
    }
    proof {
        assert(s@.skip(n as int) =~= Seq::<char>::empty());
        assert(out@ =~= out@ + spec_normalize(s@.skip(n as int), started, pending));
    }
    out
}

/// Where the region suffix of a catalogue filename starts: the first
/// position where a space is followed by an opening parenthesis, or -1.
pub open spec fn spec_region_start(s: Seq<char>) -> int
    decreases s.len(),
{
    if s.len() < 2 {
        -1
    } else if s[0] == ' ' && s[1] == '(' {
        0
    } else {
        let r = spec_region_start(s.drop_first());
        if r < 0 {
            -1
        } else {
            r + 1
        }
    }
}

/// The game name of a catalogue filename: everything before the
/// space-and-parenthesis pair that opens the region suffix, or the whole
/// name when there is none.
pub fn extract_game_name(filename: &str) -> (r: String)
    ensures
        spec_region_start(filename@) >= 0 ==> r@ == filename@.take(spec_region_start(filename@)),
        spec_region_start(filename@) < 0 ==> r@ == filename@,
{
    let n = filename.unicode_len();
    let mut j: usize = 0;
    proof {
        assert(filename@.skip(0) =~= filename@);
    }
    while n - j > 1
        invariant
            0 <= j <= n,
            n == filename@.len(),
            spec_region_start(filename@) == if spec_region_start(filename@.skip(j as int)) < 0 {
                -1int
            } else {
                j + spec_region_start(filename@.skip(j as int))
            },
        decreases n - j,
    {
        proof {
            assert(filename@.skip(j as int)[0] == filename@[j as int]);
            assert(filename@.skip(j as int)[1] == filename@[j + 1]);
            assert(filename@.skip(j as int).drop_first() =~= filename@.skip(j + 1));
        }
        if filename.get_char(j) == ' ' && filename.get_char(j + 1) == '(' {
            let cut = filename.substring_char(0, j);
            proof {
                assert(spec_region_start(filename@.skip(j as int)) == 0);
                assert(cut@ =~= filename@.take(j as int));
            }
            return cut.to_owned();
        }
        j += 1;
    }
    proof {
        assert(filename@.skip(j as int).len() < 2);
    }
    filename.to_owned()
}

/// Whether a character is a hexadecimal digit.
pub open spec fn is_hex_digit(c: char) -> bool {
    ('0' <= c && c <= '9') || ('a' <= c && c <= 'f') || ('A' <= c && c <= 'F')
}

/// The value of a hexadecimal digit.
pub open spec fn spec_hex_val(c: char) -> u8 {
    if '0' <= c && c <= '9' {
        ((c as u8) - 0x30) as u8
    } else if 'a' <= c && c <= 'f' {
        ((c as u8) - 0x61 + 10) as u8
    } else {
        ((c as u8) - 0x41 + 10) as u8
    }
}

/// The rest of a percent-encoded sequence, decoded: `%` followed by two
/// hexadecimal digits becomes the byte they spell (read as a character);
/// a malformed escape passes through unchanged.
pub open spec fn spec_url_decode(s: Seq<char>) -> Seq<char>
    decreases s.len(),
{
    if s.len() == 0 {
        Seq::empty()
    } else if s[0] == '%' {
        if s.len() >= 3 && is_hex_digit(s[1]) && is_hex_digit(s[2]) {
            seq![(spec_hex_val(s[1]) * 16 + spec_hex_val(s[2])) as char] + spec_url_decode(
                s.skip(3),
            )
        } else if s.len() >= 3 {
            seq!['%', s[1], s[2]] + spec_url_decode(s.skip(3))
        } else {
            seq!['%'] + s.skip(1)
        }
    } else {
        seq![s[0]] + spec_url_decode(s.skip(1))
    }
}

/// Decodes the common percent escapes of a URL: `%` and two hexadecimal
/// digits become the byte they spell, read as a character; anything
/// malformed passes through.
pub fn urlencoding_decode(s: &str) -> (r: String)
    ensures
        r@ == spec_url_decode(s@),
{
    let n = s.unicode_len();
    let mut out = String::new();
    let mut i: usize = 0;
    proof {
        assert(s@.skip(0) =~= s@);
        assert(out@ + spec_url_decode(s@) =~= spec_url_decode(s@));
    }
    while i < n
        invariant
            i <= n,
            n == s@.len(),
            spec_url_decode(s@) == out@ + spec_url_decode(s@.skip(i as int)),
        decreases n - i,
    {
        let c = s.get_char(i);
        proof {
            assert(s@.skip(i as int)[0] == s@[i as int]);
        }
        if c == '%' {
            if n - i > 2 {
                let h1 = s.get_char(i + 1);
                let h2 = s.get_char(i + 2);
                proof {
                    assert(s@.skip(i as int)[1] == s@[i + 1]);
                    assert(s@.skip(i as int)[2] == s@[i + 2]);
                    assert(s@.skip(i as int).skip(3) =~= s@.skip(i + 3));
                }
                let d1 = hex_digit_value(h1);
                let d2 = hex_digit_value(h2);
                match (d1, d2) {
                    (Some(v1), Some(v2)) => {
                        push_char(&mut out, (v1 * 16 + v2) as char);
                    },
                    _ => {
                        push_char(&mut out, '%');
                        push_char(&mut out, h1);
                        push_char(&mut out, h2);
                    },
                }
                i += 3;
            } else {
                proof {
                    assert(s@.skip(i as int).len() < 3);
                    assert(s@.skip(i as int).skip(1) =~= s@.skip(i + 1));
                }
                push_char(&mut out, '%');
                let ghost base = out@;
                let mut k = i + 1;
                while k < n
                    invariant
                        i + 1 <= k <= n,
                        n == s@.len(),
                        out@ == base + s@.subrange(i + 1, k as int),
                    decreases n - k,
                {
                    let tail_c = s.get_char(k);
                    push_char(&mut out, tail_c);
                    proof {
                        assert(base + s@.subrange(i + 1, k as int) + seq![s@[k as int]] =~= base
                            + s@.subrange(i + 1, k + 1));
                    }
                    k += 1;
                }
                proof {
                    assert(s@.subrange(i + 1, n as int) =~= s@.skip(i + 1));
                    assert(out@ =~= base + s@.skip(i + 1));
                    assert(s@.skip(n as int) =~= Seq::<char>::empty());
                    assert(out@ + spec_url_decode(s@.skip(n as int)) =~= out@);
                }
                i = n;
            }
        } else {
            proof {
                assert(s@.skip(i as int).drop_first() =~= s@.skip(i + 1));
            }
            push_char(&mut out, c);
            i += 1;
        }
    }
    proof {
        assert(s@.skip(n as int) =~= Seq::<char>::empty());
        assert(out@ =~= out@ + spec_url_decode(s@.skip(n as int)));
    }
    out
}

/// The value of a hexadecimal digit character, if it is one.
fn hex_digit_value(c: char) -> (r: Option<u8>)
    ensures
        r is Some <==> is_hex_digit(c),
        r matches Some(v) ==> v == spec_hex_val(c) && v < 16,
{
    if c >= '0' && c <= '9' {
        Some((c as u8) - 0x30)
    } else if c >= 'a' && c <= 'f' {
        Some((c as u8) - 0x61 + 10)
    } else if c >= 'A' && c <= 'F' {
        Some((c as u8) - 0x41 + 10)
    } else {
        None
    }
}

/// Whether a character passes through percent-encoding unchanged.
pub open spec fn is_unreserved(c: char) -> bool {
    ('A' <= c && c <= 'Z') || ('a' <= c && c <= 'z') || ('0' <= c && c <= '9') || c == '-' || c
        == '_' || c == '.' || c == '~'
}

/// The uppercase hexadecimal digit for a value below sixteen.
pub open spec fn spec_hex_upper(d: u8) -> char {
    if d == 0 {
        '0'
    } else if d == 1 {
        '1'
    } else if d == 2 {
        '2'
    } else if d == 3 {
        '3'
    } else if d == 4 {
        '4'
    } else if d == 5 {
        '5'
    } else if d == 6 {
        '6'
    } else if d == 7 {
        '7'
    } else if d == 8 {
        '8'
    } else if d == 9 {
        '9'
    } else if d == 10 {
        'A'
    } else if d == 11 {
        'B'
    } else if d == 12 {
        'C'
    } else if d == 13 {
        'D'
    } else if d == 14 {
        'E'
    } else {
        'F'
    }
}

/// The percent escapes of a byte sequence, uppercase.
pub open spec fn spec_pct_bytes(bs: Seq<u8>) -> Seq<char>
    decreases bs.len(),
{
    if bs.len() == 0 {
        Seq::empty()
    } else {
        seq!['%', spec_hex_upper(bs[0] / 16), spec_hex_upper(bs[0] % 16)] + spec_pct_bytes(
            bs.drop_first(),
        )
    }
}

/// The percent-encoding of a character sequence: unreserved characters
/// pass through, every other character becomes the percent escapes of its
/// UTF-8 bytes.
pub open spec fn spec_url_encode(s: Seq<char>) -> Seq<char>
    decreases s.len(),
{
    if s.len() == 0 {
        Seq::empty()
    } else {
        (if is_unreserved(s[0]) {
            seq![s[0]]
        } else {
            spec_pct_bytes(encode_utf8(seq![s[0]]))
        }) + spec_url_encode(s.drop_first())
    }
}

/// Percent-encodes a string for use in a URL: unreserved characters pass
/// through, everything else — spaces included — becomes the uppercase
/// percent escapes of its UTF-8 bytes.
pub fn urlencoding_encode(s: &str) -> (r: String)
    ensures
        r@ == spec_url_encode(s@),
{
    let n = s.unicode_len();
    let mut out = String::new();
    let mut i: usize = 0;
    proof {
        assert(s@.skip(0) =~= s@);
        assert(out@ + spec_url_encode(s@) =~= spec_url_encode(s@));
    }
    while i < n
        invariant
            i <= n,
            n == s@.len(),
            spec_url_encode(s@) == out@ + spec_url_encode(s@.skip(i as int)),
        decreases n - i,
    {
        let c = s.get_char(i);
        proof {
            assert(s@.skip(i as int)[0] == s@[i as int]);
            assert(s@.skip(i as int).drop_first() =~= s@.skip(i + 1));
        }
        if (c >= 'A' && c <= 'Z') || (c >= 'a' && c <= 'z') || (c >= '0' && c <= '9') || c == '-'
            || c == '_' || c == '.' || c == '~' {
            push_char(&mut out, c);
        } else {
            let one = s.substring_char(i, i + 1);
            proof {
                assert(one@ =~= seq![s@[i as int]]);
            }
            let bytes = one.as_bytes();
            let m = bytes.len();
            let ghost bs = bytes@;
            let mut k: usize = 0;
            proof {
                assert(one@ == seq![s@[i as int]]);
                assert(bs == encode_utf8(seq![s@[i as int]]));
                assert(bs.skip(0) =~= bs);
                assert(spec_url_encode(s@.skip(i as int)) == spec_pct_bytes(bs) + spec_url_encode(
                    s@.skip(i + 1),
                ));
            }
            while k < m
                invariant
                    k <= m,
                    m == bs.len(),
                    bytes@ == bs,
                    spec_url_encode(s@) == out@ + spec_pct_bytes(bs.skip(k as int))
                        + spec_url_encode(s@.skip(i + 1)),
                decreases m - k,
            {
                let b = bytes[k];
                proof {
                    assert(bs.skip(k as int)[0] == bs[k as int]);
                    assert(bs.skip(k as int).drop_first() =~= bs.skip(k + 1));
                }
                push_char(&mut out, '%');
                push_char(&mut out, hex_upper_char(b / 16));
                push_char(&mut out, hex_upper_char(b % 16));
                k += 1;
            }
            proof {
                assert(bs.skip(m as int) =~= Seq::<u8>::empty());
                assert(spec_pct_bytes(bs.skip(m as int)) =~= Seq::<char>::empty());
                assert(out@ + Seq::<char>::empty() =~= out@);
            }
        }
        i += 1;
    }
    proof {
        assert(s@.skip(n as int) =~= Seq::<char>::empty());
        assert(out@ =~= out@ + spec_url_encode(s@.skip(n as int)));
    }
    out
}

/// The uppercase hexadecimal digit character for a value below sixteen.
fn hex_upper_char(d: u8) -> (r: char)
    requires
        d < 16,
    ensures
        r == spec_hex_upper(d),
{
    if d == 0 {
        '0'
    } else if d == 1 {
        '1'
    } else if d == 2 {
        '2'
    } else if d == 3 {
        '3'
    } else if d == 4 {
        '4'
    } else if d == 5 {
        '5'
    } else if d == 6 {
        '6'
    } else if d == 7 {
        '7'
    } else if d == 8 {
        '8'
    } else if d == 9 {
        '9'
    } else if d == 10 {
        'A'
    } else if d == 11 {
        'B'
    } else if d == 12 {
        'C'
    } else if d == 13 {
        'D'
    } else if d == 14 {
        'E'
    } else {
        'F'
    }
}

} // verus!
