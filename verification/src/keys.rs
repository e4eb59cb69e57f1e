//! Printable namespace keys, for engines whose keys are strings.

use vstd::prelude::*;

use vstd::string::StringExecFns;
use vstd::utf8::{decode_utf8, encode_utf8, is_ascii_chars};

verus! {

/// The character of one decimal digit.
pub open spec fn digit_char(d: nat) -> char {
    ((48 + d) as u8) as char
}

/// The decimal digits of a number, most significant first, no sign and no
/// padding.
pub open spec fn dec_digits(n: nat) -> Seq<char>
    decreases n,
{
    if n < 10 {
        seq![digit_char(n)]
    } else {
        dec_digits(n / 10).push(digit_char(n % 10))
    }
}

/// The UTF-8 bytes of those digits: one byte per digit.
pub open spec fn dec_bytes_spec(n: nat) -> Seq<u8>
    decreases n,
{
    if n < 10 {
        seq![(48 + n) as u8]
    } else {
        dec_bytes_spec(n / 10).push((48 + n % 10) as u8)
    }
}

/// The digits are plain ASCII, and their UTF-8 form is their bytes.
proof fn lemma_dec_digits_bytes(n: nat)
    ensures
        is_ascii_chars(dec_digits(n)),
        encode_utf8(dec_digits(n)) =~= dec_bytes_spec(n),
    decreases n,
{
    broadcast use vstd::utf8::is_ascii_chars_encode_utf8;

    if n < 10 {
        assert(dec_digits(n)[0] == digit_char(n));
        assert('\u{0}' <= digit_char(n) <= '\u{7f}');
        assert(is_ascii_chars(dec_digits(n)));
        assert(digit_char(n) as u8 == (48 + n) as u8);
    } else {
        lemma_dec_digits_bytes(n / 10);
        assert(dec_digits(n) == dec_digits(n / 10).push(digit_char(n % 10)));
        assert('\u{0}' <= digit_char(n % 10) <= '\u{7f}');
        assert(is_ascii_chars(dec_digits(n)));
        assert(digit_char(n % 10) as u8 == (48 + n % 10) as u8);
    }
}

/// The digit bytes of a number, by repeated division.
fn dec_bytes(n: usize) -> (r: Vec<u8>)
    ensures
        r@ == dec_bytes_spec(n as nat),
    decreases n,
{
    if n < 10 {
        let mut v: Vec<u8> = Vec::new();
        v.push((48 + n) as u8);
        proof {
            assert(v@ =~= dec_bytes_spec(n as nat));
        }
        v
    } else {
        let mut v = dec_bytes(n / 10);
        v.push((48 + n % 10) as u8);
        proof {
            assert(v@ =~= dec_bytes_spec(n as nat));
        }
        v
    }
}

/// The plain decimal form of a number.
fn usize_decimal(n: usize) -> (r: String)
    ensures
        r@ == dec_digits(n as nat),
{
    broadcast use vstd::utf8::encode_utf8_valid_utf8, vstd::utf8::encode_utf8_decode_utf8;

    let bytes = dec_bytes(n);
    proof {
        lemma_dec_digits_bytes(n as nat);
        assert(bytes@ == encode_utf8(dec_digits(n as nat)));
    }
    match crate::codec::bytes_to_string(bytes) {
        Some(s) => {
            proof {
                assert(decode_utf8(encode_utf8(s@)) == s@);
                assert(decode_utf8(encode_utf8(dec_digits(n as nat))) == dec_digits(n as nat));
            }
            s
        },
        None => {
            proof {
                assert(false);
            }
            String::new()
        },
    }
}

/// The string key of a log record in a string-keyed namespace.
pub fn log_id(id: usize) -> (r: String)
    ensures
        r@ == "logs:"@ + dec_digits(id as nat),
{
    "logs:".to_owned().concat(usize_decimal(id).as_str())
}

/// The string key of an object record in a string-keyed namespace.
pub fn obj_id(id: usize) -> (r: String)
    ensures
        r@ == "objs:"@ + dec_digits(id as nat),
{
    "objs:".to_owned().concat(usize_decimal(id).as_str())
}

} // verus!
