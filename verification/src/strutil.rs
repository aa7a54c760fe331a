//! String helpers: byte/string conversions and equality on `&str`.

use crate::amount::Amount;
use crate::decimal_text::{
    decimal_bytes, dec_digits, format_amount, padded_digits, trim_trailing_zeros, BYTE_NINE,
    BYTE_ZERO,
};
use vstd::prelude::*;
use vstd::utf8::{
    encode_utf8, encode_utf8_decode_utf8, is_ascii_chars, is_ascii_chars_encode_utf8,
    is_leading_byte_width_1, partial_valid_utf8, partial_valid_utf8_extend_ascii_block,
    valid_utf8,
};

verus! {

/// Relies on `String::from_utf8`: it succeeds exactly on valid UTF-8 input
/// and the returned string consists of exactly the given bytes.
#[verifier::external_body]
pub fn string_from_utf8(v: Vec<u8>) -> (r: Option<String>)
    ensures
        r is Some <==> valid_utf8(v@),
        r matches Some(s) ==> encode_utf8(s@) == v@,
{
    String::from_utf8(v).ok()
}

/// Equality of two string slices, decided by their character sequences.
pub fn str_eq(a: &str, b: &str) -> (r: bool)
    ensures
        r == (a@ == b@),
{
    let ao: String = a.to_owned();
    let bo: String = b.to_owned();
    ao == bo
}

/// A sequence of bytes below `0x80` is valid UTF-8.
pub proof fn lemma_ascii_bytes_valid_utf8(bytes: Seq<u8>)
    requires
        forall|i: int| 0 <= i < bytes.len() ==> #[trigger] bytes[i] < 128,
    ensures
        valid_utf8(bytes),
{
    assert(bytes.subrange(0, 0) =~= Seq::<u8>::empty());
    reveal_with_fuel(valid_utf8, 2);
    assert(partial_valid_utf8(bytes, 0));
    assert(forall|i: int|
        0 <= 0 <= i < bytes.len() <= bytes.len() ==> #[trigger] is_leading_byte_width_1(
            bytes[i],
        ));
    partial_valid_utf8_extend_ascii_block(bytes, 0, bytes.len() as int);
    assert(bytes.subrange(0, bytes.len() as int) =~= bytes);
}

proof fn lemma_dec_digits_ascii(n: nat)
    ensures
        forall|i: int|
            0 <= i < dec_digits(n).len() ==> BYTE_ZERO <= #[trigger] dec_digits(n)[i]
                <= BYTE_NINE,
    decreases n,
{
    if n >= 10 {
        lemma_dec_digits_ascii(n / 10);
        assert forall|i: int|
            0 <= i < dec_digits(n).len() implies BYTE_ZERO <= #[trigger] dec_digits(n)[i]
            <= BYTE_NINE by {
            if i < dec_digits(n).len() - 1 {
                assert(dec_digits(n)[i] == dec_digits(n / 10)[i]);
            }
        }
    }
}

proof fn lemma_padded_digits_ascii(n: nat, width: nat)
    ensures
        forall|i: int|
            0 <= i < padded_digits(n, width).len() ==> BYTE_ZERO <= #[trigger] padded_digits(
                n,
                width,
            )[i] <= BYTE_NINE,
    decreases width,
{
    if width > 0 {
        lemma_padded_digits_ascii(n / 10, (width - 1) as nat);
        assert forall|i: int|
            0 <= i < padded_digits(n, width).len() implies BYTE_ZERO <= #[trigger] padded_digits(
            n,
            width,
        )[i] <= BYTE_NINE by {
            if i < padded_digits(n, width).len() - 1 {
                assert(padded_digits(n, width)[i] == padded_digits(n / 10, (width - 1) as nat)[i]);
            }
        }
    }
}

proof fn lemma_trim_is_prefix(s: Seq<u8>)
    ensures
        trim_trailing_zeros(s).len() <= s.len(),
        forall|i: int|
            0 <= i < trim_trailing_zeros(s).len() ==> #[trigger] trim_trailing_zeros(s)[i]
                == s[i],
    decreases s.len(),
{
    if s.len() > 0 && s.last() == BYTE_ZERO {
        lemma_trim_is_prefix(s.drop_last());
    }
}

/// Every byte of a canonical decimal spelling is ASCII.
pub proof fn lemma_decimal_bytes_ascii(u: int)
    ensures
        forall|i: int|
            0 <= i < decimal_bytes(u).len() ==> #[trigger] decimal_bytes(u)[i] < 128,
{
    let a = if u < 0 {
        -u
    } else {
        u
    };
    let w = (a / (crate::amount::UNIT as int)) as nat;
    let f = (a % (crate::amount::UNIT as int)) as nat;
    lemma_dec_digits_ascii(w);
    lemma_padded_digits_ascii(f, 20);
    lemma_trim_is_prefix(padded_digits(f, 20));
}

/// The character sequence spelled by a run of ASCII bytes.
pub open spec fn ascii_chars(b: Seq<u8>) -> Seq<char> {
    Seq::new(b.len(), |i: int| b[i] as char)
}

/// For ASCII bytes, reading them as characters and encoding back as
/// UTF-8 returns the same bytes.
pub proof fn lemma_ascii_chars_roundtrip(b: Seq<u8>)
    requires
        forall|i: int| 0 <= i < b.len() ==> #[trigger] b[i] < 128,
    ensures
        encode_utf8(ascii_chars(b)) == b,
{
    assert(is_ascii_chars(ascii_chars(b)));
    is_ascii_chars_encode_utf8(ascii_chars(b));
    assert(encode_utf8(ascii_chars(b)) =~= b);
}

/// Prints an amount as a `String` in canonical decimal form.
pub fn amount_to_string(a: &Amount) -> (r: String)
    requires
        a@ > i128::MIN,
    ensures
        r@ == ascii_chars(decimal_bytes(a@)),
        encode_utf8(r@) == decimal_bytes(a@),
{
    let bytes = format_amount(a);
    proof {
        lemma_decimal_bytes_ascii(a@);
        lemma_ascii_bytes_valid_utf8(decimal_bytes(a@));
        lemma_ascii_chars_roundtrip(decimal_bytes(a@));
    }
    let r = match string_from_utf8(bytes) {
        Some(s) => s,
        None => {
            proof {
                assert(false);
            }
            String::new()
        },
    };
    proof {
        encode_utf8_decode_utf8(r@);
        encode_utf8_decode_utf8(ascii_chars(decimal_bytes(a@)));
    }
    r
}

} // verus!
