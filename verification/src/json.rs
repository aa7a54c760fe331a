//! JSON encoding of the response envelope.
//!
//! [`json_output`] is the exact byte sequence of the canonical JSON
//! serialization of a [`GenericOutput`]: fixed key order, camel-case
//! keys, no whitespace, strings escaped with `\"`, `\\`, `\n`, `\r`,
//! `\t` and `\u00XX` for the other control bytes. [`encode_generic_output`]
//! produces exactly those bytes, and [`decode_generic_output`] accepts
//! exactly canonical texts, so that decoding and re-encoding any bytes it
//! accepts gives the same bytes back.

use crate::proto::{ErrorOutputV, GenericOutput, GenericOutputV, OneError, OneErrorV, UserBalanceDataV};
use vstd::prelude::*;
use vstd::utf8::{encode_utf8, is_ascii_chars, is_ascii_chars_encode_utf8};

verus! {

/// Lower-case hexadecimal digit of a value below sixteen.
pub open spec fn hex_digit(n: u8) -> u8
    recommends
        n < 16,
{
    if n < 10 {
        (48 + n) as u8
    } else {
        (87 + n) as u8
    }
}

/// The escape of one byte inside a JSON string.
pub open spec fn esc_byte(b: u8) -> Seq<u8> {
    if b == 34 {
        seq![92u8, 34u8]
    } else if b == 92 {
        seq![92u8, 92u8]
    } else if b == 10 {
        seq![92u8, 110u8]
    } else if b == 13 {
        seq![92u8, 114u8]
    } else if b == 9 {
        seq![92u8, 116u8]
    } else if b < 32 {
        seq![92u8, 117u8, 48u8, 48u8, hex_digit(b / 16), hex_digit(b % 16)]
    } else {
        seq![b]
    }
}

/// The escape of a byte run.
pub open spec fn esc(bytes: Seq<u8>) -> Seq<u8>
    decreases bytes.len(),
{
    if bytes.len() == 0 {
        Seq::empty()
    } else {
        esc(bytes.drop_last()) + esc_byte(bytes.last())
    }
}

/// A JSON string: quotes around the escaped UTF-8 bytes.
pub open spec fn json_str(s: Seq<char>) -> Seq<u8> {
    seq![34u8] + esc(encode_utf8(s)) + seq![34u8]
}

/// The balance part of the envelope.
pub open spec fn json_ub(u: Option<UserBalanceDataV>) -> Seq<u8> {
    match u {
        None => encode_utf8("null"@),
        Some(u) => encode_utf8("{\"userId\":"@) + json_str(u.user_id) + encode_utf8(
            ",\"currency\":"@,
        ) + json_str(u.currency) + encode_utf8(",\"value\":"@) + json_str(u.value)
            + encode_utf8(",\"reservedValue\":"@) + json_str(u.reserved_value) + encode_utf8(
            ",\"isOverdraft\":"@,
        ) + (if u.is_overdraft {
            encode_utf8("true"@)
        } else {
            encode_utf8("false"@)
        }) + encode_utf8("}"@),
    }
}

/// The tagged error case.
pub open spec fn json_one_error(e: Option<OneErrorV>) -> Seq<u8> {
    match e {
        None => encode_utf8("null"@),
        Some(OneErrorV::UserNotFound) => encode_utf8("{\"userNotFound\":{}}"@),
        Some(OneErrorV::NotEnoughMoney) => encode_utf8("{\"notEnoughMoney\":{}}"@),
        Some(OneErrorV::InvalidState) => encode_utf8("{\"invalidState\":{}}"@),
        Some(OneErrorV::BadParameter(name)) => encode_utf8("{\"badParameter\":{\"name\":"@)
            + json_str(name) + encode_utf8("}}"@),
    }
}

/// The error part of the envelope.
pub open spec fn json_error(e: Option<ErrorOutputV>) -> Seq<u8> {
    match e {
        None => encode_utf8("null"@),
        Some(e) => encode_utf8("{\"oneError\":"@) + json_one_error(e.one_error) + encode_utf8(
            "}"@,
        ),
    }
}

/// The canonical JSON bytes of the whole envelope.
pub open spec fn json_output(o: GenericOutputV) -> Seq<u8> {
    encode_utf8("{\"userBalance\":"@) + json_ub(o.user_balance) + encode_utf8(",\"error\":"@)
        + json_error(o.error) + encode_utf8("}"@)
}

/// The escape of a run, read from the front.
proof fn lemma_esc_front(x: Seq<u8>)
    requires
        x.len() > 0,
    ensures
        esc(x) == esc_byte(x[0]) + esc(x.drop_first()),
    decreases x.len(),
{
    if x.len() == 1 {
        assert(x.drop_last() =~= Seq::<u8>::empty());
        assert(x.drop_first() =~= Seq::<u8>::empty());
        assert(esc(x) =~= esc_byte(x[0]) + esc(x.drop_first()));
    } else {
        lemma_esc_front(x.drop_last());
        assert(x.drop_last().drop_first() =~= x.drop_first().drop_last());
        assert(x.drop_last()[0] == x[0]);
        assert(x.drop_first().last() == x.last());
        assert(esc(x) == (esc_byte(x[0]) + esc(x.drop_first().drop_last())) + esc_byte(
            x.drop_first().last(),
        ));
        assert(esc(x) =~= esc_byte(x[0]) + (esc(x.drop_first().drop_last()) + esc_byte(
            x.drop_first().last(),
        )));
        assert(esc(x.drop_first()) == esc(x.drop_first().drop_last()) + esc_byte(
            x.drop_first().last(),
        ));
    }
}

/// The concrete leading bytes of the fixed JSON fragments the envelope
/// uses, as far as the decoder's branch decisions need them.
proof fn lemma_json_literal_bytes()
    ensures
        encode_utf8("null"@).len() == 4 && encode_utf8("null"@)[0] == 110,
        encode_utf8("{\"userId\":"@).len() == 10 && encode_utf8("{\"userId\":"@)[0] == 123,
        encode_utf8("{\"oneError\":"@).len() == 12 && encode_utf8("{\"oneError\":"@)[0]
            == 123,
        encode_utf8("{\"userNotFound\":{}}"@).len() == 19 && encode_utf8(
            "{\"userNotFound\":{}}"@,
        )[0] == 123 && encode_utf8("{\"userNotFound\":{}}"@)[2] == 117,
        encode_utf8("{\"notEnoughMoney\":{}}"@).len() == 21 && encode_utf8(
            "{\"notEnoughMoney\":{}}"@,
        )[0] == 123 && encode_utf8("{\"notEnoughMoney\":{}}"@)[2] == 110,
        encode_utf8("{\"invalidState\":{}}"@).len() == 19 && encode_utf8(
            "{\"invalidState\":{}}"@,
        )[0] == 123 && encode_utf8("{\"invalidState\":{}}"@)[2] == 105,
        encode_utf8("{\"badParameter\":{\"name\":"@).len() == 24 && encode_utf8(
            "{\"badParameter\":{\"name\":"@,
        )[0] == 123 && encode_utf8("{\"badParameter\":{\"name\":"@)[2] == 98,
        encode_utf8("true"@).len() == 4 && encode_utf8("true"@)[0] == 116,
        encode_utf8("false"@).len() == 5 && encode_utf8("false"@)[0] == 102,
{
    reveal_strlit("null");
    reveal_strlit("{\"userId\":");
    reveal_strlit("{\"oneError\":");
    reveal_strlit("{\"userNotFound\":{}}");
    reveal_strlit("{\"notEnoughMoney\":{}}");
    reveal_strlit("{\"invalidState\":{}}");
    reveal_strlit("{\"badParameter\":{\"name\":");
    reveal_strlit("true");
    reveal_strlit("false");
    assert(is_ascii_chars("null"@));
    assert(is_ascii_chars("{\"userId\":"@));
    assert(is_ascii_chars("{\"oneError\":"@));
    assert(is_ascii_chars("{\"userNotFound\":{}}"@));
    assert(is_ascii_chars("{\"notEnoughMoney\":{}}"@));
    assert(is_ascii_chars("{\"invalidState\":{}}"@));
    assert(is_ascii_chars("{\"badParameter\":{\"name\":"@));
    assert(is_ascii_chars("true"@));
    assert(is_ascii_chars("false"@));
    is_ascii_chars_encode_utf8("null"@);
    is_ascii_chars_encode_utf8("{\"userId\":"@);
    is_ascii_chars_encode_utf8("{\"oneError\":"@);
    is_ascii_chars_encode_utf8("{\"userNotFound\":{}}"@);
    is_ascii_chars_encode_utf8("{\"notEnoughMoney\":{}}"@);
    is_ascii_chars_encode_utf8("{\"invalidState\":{}}"@);
    is_ascii_chars_encode_utf8("{\"badParameter\":{\"name\":"@);
    is_ascii_chars_encode_utf8("true"@);
    is_ascii_chars_encode_utf8("false"@);
}

/// Appends the UTF-8 bytes of a literal fragment.
fn push_lit(out: &mut Vec<u8>, lit: &str)
    ensures
        final(out)@ == old(out)@ + encode_utf8(lit@),
{
    let b = lit.as_bytes();
    let ghost before = out@;
    let mut i: usize = 0;
    while i < b.len()
        invariant
            0 <= i <= b@.len(),
            b@ == encode_utf8(lit@),
            out@ == before + b@.take(i as int),
        decreases b@.len() - i,
    {
        out.push(b[i]);
        proof {
            assert(out@ =~= before + b@.take(i as int + 1));
        }
        i = i + 1;
    }
    proof {
        assert(b@.take(b@.len() as int) =~= b@);
    }
}

/// Appends a string in its JSON form, quoted and escaped.
fn push_json_str(out: &mut Vec<u8>, s: &str)
    ensures
        final(out)@ == old(out)@ + json_str(s@),
{
    let ghost before = out@;
    let eb = s.as_bytes();
    out.push(34);
    let ghost head = before + seq![34u8];
    let mut i: usize = 0;
    proof {
        assert(esc(eb@.take(0)) =~= Seq::<u8>::empty());
        assert(out@ =~= head + esc(eb@.take(0)));
    }
    while i < eb.len()
        invariant
            0 <= i <= eb@.len(),
            eb@ == encode_utf8(s@),
            out@ == head + esc(eb@.take(i as int)),
        decreases eb@.len() - i,
    {
        let c = eb[i];
        if c == 34 {
            out.push(92);
            out.push(34);
        } else if c == 92 {
            out.push(92);
            out.push(92);
        } else if c == 10 {
            out.push(92);
            out.push(110);
        } else if c == 13 {
            out.push(92);
            out.push(114);
        } else if c == 9 {
            out.push(92);
            out.push(116);
        } else if c < 32 {
            out.push(92);
            out.push(117);
            out.push(48);
            out.push(48);
            let hi = c / 16;
            let lo = c % 16;
            out.push(if hi < 10 { 48 + hi } else { 87 + hi });
            out.push(if lo < 10 { 48 + lo } else { 87 + lo });
        } else {
            out.push(c);
        }
        proof {
            assert(eb@.take(i as int + 1).drop_last() =~= eb@.take(i as int));
            assert(eb@.take(i as int + 1).last() == eb@[i as int]);
            assert(out@ =~= head + esc(eb@.take(i as int + 1)));
        }
        i = i + 1;
    }
    out.push(34);
    proof {
        assert(eb@.take(eb@.len() as int) =~= eb@);
        assert(out@ =~= before + json_str(s@));
    }
}

/// Encodes the envelope as canonical JSON.
#[verifier::rlimit(100)]
pub fn encode_generic_output(o: &GenericOutput) -> (r: Vec<u8>)
    ensures
        r@ == json_output(o@),
{
    let mut out: Vec<u8> = Vec::new();
    push_lit(&mut out, "{\"userBalance\":");
    let ghost start = out@;
    match &o.user_balance {
        None => {
            push_lit(&mut out, "null");
            proof {
                assert(out@ =~= start + json_ub(o@.user_balance));
            }
        },
        Some(u) => {
            push_lit(&mut out, "{\"userId\":");
            push_json_str(&mut out, u.user_id.as_str());
            push_lit(&mut out, ",\"currency\":");
            push_json_str(&mut out, u.currency.as_str());
            push_lit(&mut out, ",\"value\":");
            push_json_str(&mut out, u.value.as_str());
            push_lit(&mut out, ",\"reservedValue\":");
            push_json_str(&mut out, u.reserved_value.as_str());
            push_lit(&mut out, ",\"isOverdraft\":");
            if u.is_overdraft {
                push_lit(&mut out, "true");
            } else {
                push_lit(&mut out, "false");
            }
            push_lit(&mut out, "}");
            proof {
                assert(out@ =~= start + json_ub(o@.user_balance));
            }
        },
    }
    proof {
        assert(out@ =~= encode_utf8("{\"userBalance\":"@) + json_ub(o@.user_balance));
    }
    let ghost mid = out@;
    push_lit(&mut out, ",\"error\":");
    match &o.error {
        None => {
            push_lit(&mut out, "null");
        },
        Some(e) => {
            let ghost estart = out@;
            push_lit(&mut out, "{\"oneError\":");
            match &e.one_error {
                None => {
                    push_lit(&mut out, "null");
                },
                Some(OneError::UserNotFound) => {
                    push_lit(&mut out, "{\"userNotFound\":{}}");
                },
                Some(OneError::NotEnoughMoney) => {
                    push_lit(&mut out, "{\"notEnoughMoney\":{}}");
                },
                Some(OneError::InvalidState) => {
                    push_lit(&mut out, "{\"invalidState\":{}}");
                },
                Some(OneError::BadParameter(name)) => {
                    push_lit(&mut out, "{\"badParameter\":{\"name\":");
                    push_json_str(&mut out, name.as_str());
                    proof {
                        assert(out@ =~= estart + encode_utf8("{\"oneError\":"@)
                            + encode_utf8("{\"badParameter\":{\"name\":"@)
                            + json_str(name@));
                    }
                    push_lit(&mut out, "}}");
                },
            }
            proof {
                assert(out@ =~= estart + encode_utf8("{\"oneError\":"@) + json_one_error(
                    e@.one_error,
                ));
            }
            push_lit(&mut out, "}");
        },
    }
    proof {
        assert(out@ =~= mid + encode_utf8(",\"error\":"@) + json_error(o@.error));
    }
    push_lit(&mut out, "}");
    proof {
        assert(out@ =~= json_output(o@));
    }
    out
}

/// Tries to consume a literal fragment at the cursor. On failure the
/// cursor does not move.
fn eat_lit(input: &[u8], pos: &mut usize, lit: &str) -> (r: bool)
    requires
        *old(pos) <= input@.len(),
    ensures
        *final(pos) <= input@.len(),
        r ==> *old(pos) <= *final(pos) && input@.subrange(*old(pos) as int, *final(pos) as int)
            == encode_utf8(lit@),
        !r ==> *final(pos) == *old(pos),
        *old(pos) + encode_utf8(lit@).len() <= input@.len() && input@.subrange(
            *old(pos) as int,
            *old(pos) + encode_utf8(lit@).len(),
        ) == encode_utf8(lit@) ==> r,
{
    let lb = lit.as_bytes();
    let n = lb.len();
    if input.len() - *pos < n {
        return false;
    }
    let base = *pos;
    let mut k: usize = 0;
    while k < n
        invariant
            0 <= k <= n,
            n == lb@.len(),
            lb@ == encode_utf8(lit@),
            *pos == base,
            *old(pos) == base,
            base + n <= input@.len(),
            input@.len() <= usize::MAX,
            forall|j: int| 0 <= j < k as int ==> input@[base + j] == lb@[j],
        decreases n - k,
    {
        if input[base + k] != lb[k] {
            proof {
                if base + lb@.len() <= input@.len() && input@.subrange(
                    base as int,
                    base + lb@.len(),
                ) == lb@ {
                    assert(input@[base + k] == input@.subrange(base as int, base + lb@.len())[
                        k as int]);
                }
            }
            return false;
        }
        k = k + 1;
    }
    *pos = base + n;
    proof {
        assert(input@.subrange(base as int, (base + n) as int) =~= lb@);
    }
    true
}

/// Parses a quoted, escaped JSON string at the cursor. Accepts exactly
/// the canonical escapes the encoder writes; a stream that starts with a
/// JSON string is always read, leaving the cursor on the string's tail.
#[verifier::rlimit(100)]
fn parse_string(
    input: &[u8],
    pos: &mut usize,
    Ghost(premise): Ghost<bool>,
    Ghost(wv): Ghost<Seq<char>>,
    Ghost(wrest): Ghost<Seq<u8>>,
) -> (r: Option<String>)
    requires
        *old(pos) <= input@.len(),
        premise ==> input@.skip(*old(pos) as int) == json_str(wv) + wrest,
    ensures
        *final(pos) <= input@.len(),
        r matches Some(s) ==> *old(pos) <= *final(pos) && input@.subrange(
            *old(pos) as int,
            *final(pos) as int,
        ) == json_str(s@),
        premise ==> r is Some && input@.skip(*final(pos) as int) == wrest,
{
    let ghost wb = encode_utf8(wv);
    let base = *pos;
    proof {
        if premise {
            assert(input@.skip(base as int).len() == input@.len() - base);
            assert((json_str(wv) + wrest).len() == json_str(wv).len() + wrest.len());
            assert(json_str(wv).len() == 2 + esc(wb).len()) by {
                assert((seq![34u8] + esc(wb)).len() == 1 + esc(wb).len());
                assert((seq![34u8] + esc(wb) + seq![34u8]).len() == 2 + esc(wb).len());
            }
            assert(base < input@.len());
            assert(input@[base as int] == input@.skip(base as int)[0]);
            assert(input@[base as int] == (json_str(wv) + wrest)[0]);
            assert(input@[base as int] == json_str(wv)[0]);
            assert(input@[base as int] == 34);
        }
    }
    if base >= input.len() || input[base] != 34 {
        return None;
    }
    let mut raw: Vec<u8> = Vec::new();
    let mut i: usize = base + 1;
    proof {
        assert(esc(raw@) =~= Seq::<u8>::empty());
        assert(input@.subrange(base as int + 1, i as int) =~= esc(raw@));
        if premise {
            assert(raw@ =~= wb.take(0));
            assert(input@.skip(base as int + 1) =~= esc(wb) + (seq![34u8] + wrest)) by {
                assert(json_str(wv) + wrest =~= seq![34u8] + (esc(wb) + (seq![34u8] + wrest)));
                assert(forall|j: int|
                    0 <= j < input@.skip(base as int + 1).len() ==> #[trigger] input@.skip(
                        base as int + 1,
                    )[j] == input@.skip(base as int)[j + 1] && input@.skip(base as int)[j + 1]
                        == (seq![34u8] + (esc(wb) + (seq![34u8] + wrest)))[j + 1]);
            }
            assert(wb.skip(0) =~= wb);
        }
    }
    loop
        invariant
            base + 1 <= i <= input@.len(),
            input@.len() <= usize::MAX,
            *pos == base,
            *old(pos) == base,
            base < input@.len(),
            input@[base as int] == 34,
            input@.subrange(base as int + 1, i as int) == esc(raw@),
            premise ==> wb == encode_utf8(wv) && raw@.len() <= wb.len() && raw@ == wb.take(
                raw@.len() as int,
            ) && input@.skip(i as int) == esc(wb.skip(raw@.len() as int)) + (seq![34u8]
                + wrest),
        decreases input@.len() - i,
    {
        let ghost k = raw@.len() as int;
        proof {
            if premise {
                if k < wb.len() {
                    lemma_esc_front(wb.skip(k));
                    assert(wb.skip(k)[0] == wb[k]);
                    assert(input@[i as int] == input@.skip(i as int)[0]);
                    assert(input@[i as int] == esc_byte(wb[k])[0]);
                    assert(wb.skip(k).drop_first() =~= wb.skip(k + 1));
                } else {
                    assert(esc(wb.skip(k)) =~= Seq::<u8>::empty());
                    assert(input@.skip(i as int) =~= seq![34u8] + wrest);
                    assert(input@[i as int] == input@.skip(i as int)[0]);
                    assert(input@[i as int] == 34);
                }
            }
        }
        if i >= input.len() {
            proof {
                if premise {
                    assert(input@.skip(i as int).len() >= 1);
                }
            }
            return None;
        }
        let c = input[i];
        if c == 34 {
            proof {
                if premise {
                    // An escape never begins with a quote, so the string
                    // body has ended exactly here.
                    if k < wb.len() {
                        assert(esc_byte(wb[k])[0] != 34);
                    }
                    assert(raw@ =~= wb);
                    vstd::utf8::encode_utf8_valid_utf8(wv);
                    assert(input@.skip(i as int + 1) =~= wrest) by {
                        assert(forall|j: int|
                            0 <= j < wrest.len() ==> #[trigger] input@.skip(i as int + 1)[j]
                                == input@.skip(i as int)[j + 1] && input@.skip(i as int)[j + 1]
                                == (seq![34u8] + wrest)[j + 1]);
                    }
                }
            }
            *pos = i + 1;
            match crate::strutil::string_from_utf8(raw) {
                Some(s) => {
                    proof {
                        assert(input@.subrange(base as int, i as int + 1) =~= seq![34u8] + esc(
                            encode_utf8(s@),
                        ) + seq![34u8]);
                    }
                    return Some(s);
                },
                None => {
                    return None;
                },
            }
        }
        let ghost old_raw = raw@;
        let ghost old_i = i as int;
        proof {
            if premise {
                assert(k < wb.len());
            }
        }
        if c == 92 {
            proof {
                if premise {
                    // Only an escaped byte starts with a backslash.
                    vstd::seq_lib::lemma_concat_associative(
                        esc_byte(wb[k]),
                        esc(wb.skip(k + 1)),
                        seq![34u8] + wrest,
                    );
                    assert(input@.skip(old_i) == esc_byte(wb[k]) + (esc(wb.skip(k + 1)) + (seq![
                        34u8,
                    ] + wrest)));
                    lemma_strip_prefix(
                        input@,
                        old_i,
                        old_i + esc_byte(wb[k]).len(),
                        esc_byte(wb[k]),
                        esc(wb.skip(k + 1)) + (seq![34u8] + wrest),
                    );
                    assert(forall|j: int|
                        0 <= j < esc_byte(wb[k]).len() ==> #[trigger] input@[old_i + j]
                            == input@.subrange(old_i, old_i + esc_byte(wb[k]).len())[j]);
                }
            }
            if i + 1 >= input.len() {
                return None;
            }
            let e = input[i + 1];
            if e == 34 {
                raw.push(34);
                i = i + 2;
            } else if e == 92 {
                raw.push(92);
                i = i + 2;
            } else if e == 110 {
                raw.push(10);
                i = i + 2;
            } else if e == 114 {
                raw.push(13);
                i = i + 2;
            } else if e == 116 {
                raw.push(9);
                i = i + 2;
            } else if e == 117 {
                if input.len() - i < 6 {
                    return None;
                }
                if input[i + 2] != 48 || input[i + 3] != 48 {
                    return None;
                }
                let d1 = input[i + 4];
                let d2 = input[i + 5];
                let v1: u8 = if 48 <= d1 && d1 <= 57 {
                    d1 - 48
                } else if 97 <= d1 && d1 <= 102 {
                    d1 - 87
                } else {
                    return None;
                };
                let v2: u8 = if 48 <= d2 && d2 <= 57 {
                    d2 - 48
                } else if 97 <= d2 && d2 <= 102 {
                    d2 - 87
                } else {
                    return None;
                };
                let v: u8 = 16 * v1 + v2;
                if v >= 32 || v == 10 || v == 13 || v == 9 {
                    return None;
                }
                proof {
                    vstd::arithmetic::div_mod::lemma_fundamental_div_mod_converse(
                        v as int,
                        16,
                        v1 as int,
                        v2 as int,
                    );
                    assert(hex_digit(v / 16) == d1);
                    assert(hex_digit(v % 16) == d2);
                }
                raw.push(v);
                i = i + 6;
            } else {
                return None;
            }
        } else if c < 32 {
            return None;
        } else {
            proof {
                if premise {
                    assert(esc_byte(wb[k]) =~= seq![c]);
                }
            }
            raw.push(c);
            i = i + 1;
        }
        proof {
            assert(raw@.drop_last() =~= old_raw);
            assert(esc(raw@) =~= esc(old_raw) + esc_byte(raw@.last()));
            assert(input@.subrange(old_i, i as int) =~= esc_byte(raw@.last()));
            assert(input@.subrange(base as int + 1, i as int) =~= input@.subrange(
                base as int + 1,
                old_i,
            ) + input@.subrange(old_i, i as int));
            if premise {
                assert(raw@.last() == wb[k]);
                assert(raw@ =~= wb.take(k + 1));
                assert(input@.skip(i as int) =~= esc(wb.skip(k + 1)) + (seq![34u8] + wrest)) by {
                    assert(input@.skip(old_i) == esc_byte(wb[k]) + (esc(wb.skip(k + 1)) + (seq![
                        34u8,
                    ] + wrest)));
                    assert(forall|j: int|
                        0 <= j < input@.skip(i as int).len() ==> #[trigger] input@.skip(
                            i as int,
                        )[j] == input@.skip(old_i)[j + (i as int - old_i)]);
                }
            }
        }
    }
}

/// Splitting a stream at the length of a known prefix yields that
/// prefix and the tail.
proof fn lemma_strip_prefix(s: Seq<u8>, p: int, q: int, head: Seq<u8>, tail: Seq<u8>)
    requires
        0 <= p <= s.len(),
        s.skip(p) == head + tail,
        q == p + head.len(),
    ensures
        q <= s.len(),
        s.subrange(p, q) == head,
        s.skip(q) == tail,
{
    assert(s.skip(p).len() == s.len() - p);
    assert((head + tail).len() == head.len() + tail.len());
    assert(q <= s.len());
    assert(s.subrange(p, q) =~= head) by {
        assert(forall|j: int|
            0 <= j < head.len() ==> #[trigger] s.subrange(p, q)[j] == s[p + j] && s.skip(p)[j]
                == s[p + j] && s.skip(p)[j] == (head + tail)[j] && (head + tail)[j] == head[j]);
    }
    assert(s.skip(q) =~= tail) by {
        assert(forall|j: int|
            0 <= j < tail.len() ==> #[trigger] s.skip(q)[j] == s[q + j] && s.skip(p)[head.len()
                + j] == s[q + j] && s.skip(p)[head.len() + j] == (head + tail)[head.len() + j]
                && (head + tail)[head.len() + j] == tail[j]);
    }
}

/// The balance object, followed by any tail, read as right-nested parts.
proof fn lemma_json_ub_parts(u: UserBalanceDataV, t: Seq<u8>)
    ensures
        json_ub(Some(u)) + t == encode_utf8("{\"userId\":"@) + (json_str(u.user_id) + (
        encode_utf8(",\"currency\":"@) + (json_str(u.currency) + (encode_utf8(",\"value\":"@)
            + (json_str(u.value) + (encode_utf8(",\"reservedValue\":"@) + (json_str(
            u.reserved_value,
        ) + (encode_utf8(",\"isOverdraft\":"@) + ((if u.is_overdraft {
            encode_utf8("true"@)
        } else {
            encode_utf8("false"@)
        }) + (encode_utf8("}"@) + t)))))))))),
{
    let a1 = encode_utf8("{\"userId\":"@);
    let a2 = json_str(u.user_id);
    let a3 = encode_utf8(",\"currency\":"@);
    let a4 = json_str(u.currency);
    let a5 = encode_utf8(",\"value\":"@);
    let a6 = json_str(u.value);
    let a7 = encode_utf8(",\"reservedValue\":"@);
    let a8 = json_str(u.reserved_value);
    let a9 = encode_utf8(",\"isOverdraft\":"@);
    let a10: Seq<u8> = if u.is_overdraft {
        encode_utf8("true"@)
    } else {
        encode_utf8("false"@)
    };
    let a11 = encode_utf8("}"@);
    vstd::seq_lib::lemma_concat_associative(
        a1 + a2 + a3 + a4 + a5 + a6 + a7 + a8 + a9 + a10,
        a11,
        t,
    );
    vstd::seq_lib::lemma_concat_associative(
        a1 + a2 + a3 + a4 + a5 + a6 + a7 + a8 + a9,
        a10,
        a11 + t,
    );
    vstd::seq_lib::lemma_concat_associative(
        a1 + a2 + a3 + a4 + a5 + a6 + a7 + a8,
        a9,
        a10 + (a11 + t),
    );
    vstd::seq_lib::lemma_concat_associative(
        a1 + a2 + a3 + a4 + a5 + a6 + a7,
        a8,
        a9 + (a10 + (a11 + t)),
    );
    vstd::seq_lib::lemma_concat_associative(
        a1 + a2 + a3 + a4 + a5 + a6,
        a7,
        a8 + (a9 + (a10 + (a11 + t))),
    );
    vstd::seq_lib::lemma_concat_associative(
        a1 + a2 + a3 + a4 + a5,
        a6,
        a7 + (a8 + (a9 + (a10 + (a11 + t)))),
    );
    vstd::seq_lib::lemma_concat_associative(
        a1 + a2 + a3 + a4,
        a5,
        a6 + (a7 + (a8 + (a9 + (a10 + (a11 + t))))),
    );
    vstd::seq_lib::lemma_concat_associative(
        a1 + a2 + a3,
        a4,
        a5 + (a6 + (a7 + (a8 + (a9 + (a10 + (a11 + t)))))),
    );
    vstd::seq_lib::lemma_concat_associative(
        a1 + a2,
        a3,
        a4 + (a5 + (a6 + (a7 + (a8 + (a9 + (a10 + (a11 + t))))))),
    );
    vstd::seq_lib::lemma_concat_associative(
        a1,
        a2,
        a3 + (a4 + (a5 + (a6 + (a7 + (a8 + (a9 + (a10 + (a11 + t)))))))),
    );
}

/// The error object, followed by any tail, read as right-nested parts.
proof fn lemma_json_error_parts(e: ErrorOutputV, t: Seq<u8>)
    ensures
        json_error(Some(e)) + t == encode_utf8("{\"oneError\":"@) + (json_one_error(
            e.one_error,
        ) + (encode_utf8("}"@) + t)),
{
    vstd::seq_lib::lemma_concat_associative(
        encode_utf8("{\"oneError\":"@) + json_one_error(e.one_error),
        encode_utf8("}"@),
        t,
    );
    vstd::seq_lib::lemma_concat_associative(
        encode_utf8("{\"oneError\":"@),
        json_one_error(e.one_error),
        encode_utf8("}"@) + t,
    );
}

/// The whole envelope read as right-nested parts.
proof fn lemma_json_output_parts(o: GenericOutputV)
    ensures
        json_output(o) == encode_utf8("{\"userBalance\":"@) + (json_ub(o.user_balance) + (
        encode_utf8(",\"error\":"@) + (json_error(o.error) + encode_utf8("}"@)))),
{
    let a1 = encode_utf8("{\"userBalance\":"@);
    let a2 = json_ub(o.user_balance);
    let a3 = encode_utf8(",\"error\":"@);
    let a4 = json_error(o.error);
    let a5 = encode_utf8("}"@);
    vstd::seq_lib::lemma_concat_associative(a1 + a2 + a3, a4, a5);
    vstd::seq_lib::lemma_concat_associative(a1 + a2, a3, a4 + a5);
    vstd::seq_lib::lemma_concat_associative(a1, a2, a3 + (a4 + a5));
}

/// Parses the balance part: `null` or the balance object./// Parses the balance part: `null` or the balance object; a stream that
/// starts with either is always read, leaving the cursor on the tail.
fn parse_ub_value(
    input: &[u8],
    pos: &mut usize,
    Ghost(premise): Ghost<bool>,
    Ghost(wub): Ghost<Option<UserBalanceDataV>>,
    Ghost(wrest): Ghost<Seq<u8>>,
) -> (r: Option<Option<crate::proto::UserBalanceData>>)
    requires
        *old(pos) <= input@.len(),
        premise ==> input@.skip(*old(pos) as int) == json_ub(wub) + wrest,
    ensures
        *final(pos) <= input@.len(),
        r matches Some(ub) ==> *old(pos) <= *final(pos) && input@.subrange(
            *old(pos) as int,
            *final(pos) as int,
        ) == json_ub(
            match ub {
                Some(u) => Some(u@),
                None => None,
            },
        ),
        premise ==> r is Some && input@.skip(*final(pos) as int) == wrest,
{
    let ghost obj = premise && wub is Some;
    let ghost wu: UserBalanceDataV = if obj {
        wub->0
    } else {
        arbitrary()
    };
    let ghost p0 = *pos as int;
    proof {
        lemma_json_literal_bytes();
        if obj {
            lemma_json_ub_parts(wu, wrest);
            assert(input@.skip(p0).len() == input@.len() - p0);
            assert(input@[p0] == input@.skip(p0)[0]);
        }
        if premise && wub is None {
            assert(input@.skip(p0).len() == input@.len() - p0);
            assert((encode_utf8("null"@) + wrest).len() == 4 + wrest.len());
            assert(input@[p0] == input@.skip(p0)[0]);
            assert(input@[p0] == (encode_utf8("null"@) + wrest)[0]);
            lemma_strip_prefix(
                input@,
                p0,
                p0 + encode_utf8("null"@).len(),
                encode_utf8("null"@),
                wrest,
            );
        }
    }
    if eat_lit(input, pos, "null") {
        proof {
            if obj {
                // The object form opens with a brace, not an `n`.
                assert(json_ub(Some(wu))[0] == encode_utf8("{\"userId\":"@)[0]);
                assert(input@[p0] == (json_ub(Some(wu)) + wrest)[0]);
                assert(input@[p0] == 123);
                assert(input@.subrange(p0, p0 + 4) == encode_utf8("null"@));
                assert(input@[p0] == input@.subrange(p0, p0 + 4)[0]);
                assert(input@[p0] == 110);
            }
        }
        return Some(None);
    }
    proof {
        if premise && wub is None {
            assert(false);
        }
    }
    match parse_ub_object(input, pos, Ghost(obj), Ghost(wu), Ghost(wrest)) {
        Some(u) => Some(Some(u)),
        None => None,
    }
}

/// Adjacent segments that spell the parts of a balance object assemble
/// to the whole object.
proof fn lemma_json_ub_assemble(
    input: Seq<u8>,
    p0: int,
    q1: int,
    q2: int,
    q3: int,
    q4: int,
    q5: int,
    q6: int,
    q7: int,
    q8: int,
    q9: int,
    q10: int,
    pend: int,
    u: UserBalanceDataV,
)
    requires
        0 <= p0 <= q1 <= q2 <= q3 <= q4 <= q5 <= q6 <= q7 <= q8 <= q9 <= q10 <= pend
            <= input.len(),
        input.subrange(p0, q1) == encode_utf8("{\"userId\":"@),
        input.subrange(q1, q2) == json_str(u.user_id),
        input.subrange(q2, q3) == encode_utf8(",\"currency\":"@),
        input.subrange(q3, q4) == json_str(u.currency),
        input.subrange(q4, q5) == encode_utf8(",\"value\":"@),
        input.subrange(q5, q6) == json_str(u.value),
        input.subrange(q6, q7) == encode_utf8(",\"reservedValue\":"@),
        input.subrange(q7, q8) == json_str(u.reserved_value),
        input.subrange(q8, q9) == encode_utf8(",\"isOverdraft\":"@),
        input.subrange(q9, q10) == (if u.is_overdraft {
            encode_utf8("true"@)
        } else {
            encode_utf8("false"@)
        }),
        input.subrange(q10, pend) == encode_utf8("}"@),
    ensures
        input.subrange(p0, pend) == json_ub(Some(u)),
{
    assert(input.subrange(p0, pend) =~= input.subrange(p0, q1) + input.subrange(q1, q2)
        + input.subrange(q2, q3) + input.subrange(q3, q4) + input.subrange(q4, q5)
        + input.subrange(q5, q6) + input.subrange(q6, q7) + input.subrange(q7, q8)
        + input.subrange(q8, q9) + input.subrange(q9, q10) + input.subrange(q10, pend));
    assert(input.subrange(p0, pend) =~= json_ub(Some(u)));
}

/// Parses the balance object itself; a stream that starts with one is
/// always read, leaving the cursor on the tail.
#[verifier::rlimit(100)]
fn parse_ub_object(
    input: &[u8],
    pos: &mut usize,
    Ghost(obj): Ghost<bool>,
    Ghost(wu): Ghost<UserBalanceDataV>,
    Ghost(wrest): Ghost<Seq<u8>>,
) -> (r: Option<crate::proto::UserBalanceData>)
    requires
        *old(pos) <= input@.len(),
        obj ==> input@.skip(*old(pos) as int) == json_ub(Some(wu)) + wrest,
    ensures
        *final(pos) <= input@.len(),
        r matches Some(u) ==> *old(pos) <= *final(pos) && input@.subrange(
            *old(pos) as int,
            *final(pos) as int,
        ) == json_ub(Some(u@)),
        obj ==> r is Some && input@.skip(*final(pos) as int) == wrest,
{
    let ghost bool_bytes: Seq<u8> = if wu.is_overdraft {
        encode_utf8("true"@)
    } else {
        encode_utf8("false"@)
    };
    let ghost r10 = encode_utf8("}"@) + wrest;
    let ghost r9 = bool_bytes + r10;
    let ghost r8 = encode_utf8(",\"isOverdraft\":"@) + r9;
    let ghost r7 = json_str(wu.reserved_value) + r8;
    let ghost r6 = encode_utf8(",\"reservedValue\":"@) + r7;
    let ghost r5 = json_str(wu.value) + r6;
    let ghost r4 = encode_utf8(",\"value\":"@) + r5;
    let ghost r3 = json_str(wu.currency) + r4;
    let ghost r2 = encode_utf8(",\"currency\":"@) + r3;
    let ghost r1 = json_str(wu.user_id) + r2;
    let ghost p0 = *pos as int;
    proof {
        lemma_json_literal_bytes();
        if obj {
            lemma_json_ub_parts(wu, wrest);
            assert(input@.skip(p0) == encode_utf8("{\"userId\":"@) + r1);
            lemma_strip_prefix(
                input@,
                p0,
                p0 + encode_utf8("{\"userId\":"@).len(),
                encode_utf8("{\"userId\":"@),
                r1,
            );
        }
    }
    if !eat_lit(input, pos, "{\"userId\":") {
        return None;
    }
    let ghost q1 = *pos as int;
    proof {
        if obj {
            lemma_strip_prefix(input@, q1, q1 + json_str(wu.user_id).len(), json_str(wu.user_id), r2);
        }
    }
    let user_id = match parse_string(input, pos, Ghost(obj), Ghost(wu.user_id), Ghost(r2)) {
        Some(s) => s,
        None => {
            return None;
        },
    };
    let ghost q2 = *pos as int;
    proof {
        if obj {
            assert(input@.skip(q2) == r2);
            lemma_strip_prefix(
                input@,
                q2,
                q2 + encode_utf8(",\"currency\":"@).len(),
                encode_utf8(",\"currency\":"@),
                r3,
            );
        }
    }
    if !eat_lit(input, pos, ",\"currency\":") {
        return None;
    }
    let ghost q3 = *pos as int;
    let currency = match parse_string(input, pos, Ghost(obj), Ghost(wu.currency), Ghost(r4)) {
        Some(s) => s,
        None => {
            return None;
        },
    };
    let ghost q4 = *pos as int;
    proof {
        if obj {
            assert(input@.skip(q4) == r4);
            lemma_strip_prefix(
                input@,
                q4,
                q4 + encode_utf8(",\"value\":"@).len(),
                encode_utf8(",\"value\":"@),
                r5,
            );
        }
    }
    if !eat_lit(input, pos, ",\"value\":") {
        return None;
    }
    let ghost q5 = *pos as int;
    let value = match parse_string(input, pos, Ghost(obj), Ghost(wu.value), Ghost(r6)) {
        Some(s) => s,
        None => {
            return None;
        },
    };
    let ghost q6 = *pos as int;
    proof {
        if obj {
            assert(input@.skip(q6) == r6);
            lemma_strip_prefix(
                input@,
                q6,
                q6 + encode_utf8(",\"reservedValue\":"@).len(),
                encode_utf8(",\"reservedValue\":"@),
                r7,
            );
        }
    }
    if !eat_lit(input, pos, ",\"reservedValue\":") {
        return None;
    }
    let ghost q7 = *pos as int;
    let reserved_value = match parse_string(
        input,
        pos,
        Ghost(obj),
        Ghost(wu.reserved_value),
        Ghost(r8),
    ) {
        Some(s) => s,
        None => {
            return None;
        },
    };
    let ghost q8 = *pos as int;
    proof {
        if obj {
            assert(input@.skip(q8) == r8);
            lemma_strip_prefix(
                input@,
                q8,
                q8 + encode_utf8(",\"isOverdraft\":"@).len(),
                encode_utf8(",\"isOverdraft\":"@),
                r9,
            );
        }
    }
    if !eat_lit(input, pos, ",\"isOverdraft\":") {
        return None;
    }
    let ghost q9 = *pos as int;
    proof {
        if obj {
            assert(input@.skip(q9) == r9);
            lemma_strip_prefix(input@, q9, q9 + bool_bytes.len(), bool_bytes, r10);
        }
    }
    let is_overdraft = if eat_lit(input, pos, "true") {
        proof {
            if obj && !wu.is_overdraft {
                assert(input@.subrange(q9, q9 + 4) == encode_utf8("true"@));
                assert(input@[q9] == (encode_utf8("false"@) + r10)[0]);
                assert(input@[q9] == 102);
                assert(input@[q9] == encode_utf8("true"@)[0]);
            }
        }
        true
    } else if eat_lit(input, pos, "false") {
        proof {
            if obj && wu.is_overdraft {
                assert(input@.subrange(q9, q9 + 5) == encode_utf8("false"@));
                assert(input@[q9] == (encode_utf8("true"@) + r10)[0]);
                assert(input@[q9] == 116);
                assert(input@[q9] == encode_utf8("false"@)[0]);
            }
        }
        false
    } else {
        return None;
    };
    let ghost q10 = *pos as int;
    proof {
        if obj {
            assert(input@.skip(q10) == r10);
            lemma_strip_prefix(
                input@,
                q10,
                q10 + encode_utf8("}"@).len(),
                encode_utf8("}"@),
                wrest,
            );
        }
    }
    if !eat_lit(input, pos, "}") {
        return None;
    }
    let u = crate::proto::UserBalanceData {
        user_id,
        currency,
        value,
        reserved_value,
        is_overdraft,
    };
    proof {
        lemma_json_ub_assemble(
            input@,
            p0,
            q1,
            q2,
            q3,
            q4,
            q5,
            q6,
            q7,
            q8,
            q9,
            q10,
            *pos as int,
            u@,
        );
    }
    Some(u)
}

/// Parses the error part: `null` or the error object; a stream that
/// starts with either is always read, leaving the cursor on the tail.
#[verifier::rlimit(100)]
fn parse_error_value(
    input: &[u8],
    pos: &mut usize,
    Ghost(premise): Ghost<bool>,
    Ghost(werr): Ghost<Option<ErrorOutputV>>,
    Ghost(wrest): Ghost<Seq<u8>>,
) -> (r: Option<Option<crate::proto::ErrorOutput>>)
    requires
        *old(pos) <= input@.len(),
        premise ==> input@.skip(*old(pos) as int) == json_error(werr) + wrest,
    ensures
        *final(pos) <= input@.len(),
        r matches Some(err) ==> *old(pos) <= *final(pos) && input@.subrange(
            *old(pos) as int,
            *final(pos) as int,
        ) == json_error(
            match err {
                Some(e) => Some(e@),
                None => None,
            },
        ),
        premise ==> r is Some && input@.skip(*final(pos) as int) == wrest,
{
    let ghost obj = premise && werr is Some;
    let ghost we: ErrorOutputV = if obj {
        werr->0
    } else {
        arbitrary()
    };
    let ghost r2 = encode_utf8("}"@) + wrest;
    let ghost r1 = json_one_error(we.one_error) + r2;
    let ghost p0 = *pos as int;
    proof {
        lemma_json_literal_bytes();
        if obj {
            lemma_json_error_parts(we, wrest);
            assert(input@.skip(p0) == encode_utf8("{\"oneError\":"@) + r1);
            lemma_strip_prefix(
                input@,
                p0,
                p0 + encode_utf8("{\"oneError\":"@).len(),
                encode_utf8("{\"oneError\":"@),
                r1,
            );
            assert(input@[p0] == (encode_utf8("{\"oneError\":"@) + r1)[0]);
        }
        if premise && werr is None {
            assert(input@.skip(p0).len() == input@.len() - p0);
            assert((encode_utf8("null"@) + wrest).len() == 4 + wrest.len());
            assert(input@[p0] == input@.skip(p0)[0]);
            assert(input@[p0] == (encode_utf8("null"@) + wrest)[0]);
            lemma_strip_prefix(
                input@,
                p0,
                p0 + encode_utf8("null"@).len(),
                encode_utf8("null"@),
                wrest,
            );
        }
    }
    if eat_lit(input, pos, "null") {
        proof {
            if obj {
                assert(input@[p0] == 123);
                assert(input@.subrange(p0, p0 + 4) == encode_utf8("null"@));
                assert(input@[p0] == 110);
            }
        }
        return Some(None);
    }
    proof {
        if premise && werr is None {
            assert(false);
        }
    }
    if !eat_lit(input, pos, "{\"oneError\":") {
        return None;
    }
    let ghost e1 = *pos as int;
    proof {
        if obj {
            assert(input@.skip(e1) == r1);
            // Which case follows is decided by the first bytes of the
            // tagged object, or the `n` of `null`.
            match we.one_error {
                None => {
                    lemma_strip_prefix(
                        input@,
                        e1,
                        e1 + encode_utf8("null"@).len(),
                        encode_utf8("null"@),
                        r2,
                    );
                },
                Some(OneErrorV::UserNotFound) => {
                    lemma_strip_prefix(
                        input@,
                        e1,
                        e1 + encode_utf8("{\"userNotFound\":{}}"@).len(),
                        encode_utf8("{\"userNotFound\":{}}"@),
                        r2,
                    );
                },
                Some(OneErrorV::NotEnoughMoney) => {
                    lemma_strip_prefix(
                        input@,
                        e1,
                        e1 + encode_utf8("{\"notEnoughMoney\":{}}"@).len(),
                        encode_utf8("{\"notEnoughMoney\":{}}"@),
                        r2,
                    );
                },
                Some(OneErrorV::InvalidState) => {
                    lemma_strip_prefix(
                        input@,
                        e1,
                        e1 + encode_utf8("{\"invalidState\":{}}"@).len(),
                        encode_utf8("{\"invalidState\":{}}"@),
                        r2,
                    );
                },
                Some(OneErrorV::BadParameter(nm)) => {
                    let bp = we.one_error->0->BadParameter_0;
                    vstd::seq_lib::lemma_concat_associative(
                        encode_utf8("{\"badParameter\":{\"name\":"@) + json_str(bp),
                        encode_utf8("}}"@),
                        r2,
                    );
                    vstd::seq_lib::lemma_concat_associative(
                        encode_utf8("{\"badParameter\":{\"name\":"@),
                        json_str(bp),
                        encode_utf8("}}"@) + r2,
                    );
                    lemma_strip_prefix(
                        input@,
                        e1,
                        e1 + encode_utf8("{\"badParameter\":{\"name\":"@).len(),
                        encode_utf8("{\"badParameter\":{\"name\":"@),
                        json_str(bp) + (encode_utf8("}}"@) + r2),
                    );
                },
            }
        }
    }
    let one: Option<OneError> = if eat_lit(input, pos, "null") {
        proof {
            if obj && we.one_error is Some {
                assert(input@.subrange(e1, e1 + 4) == encode_utf8("null"@));
                assert(input@[e1] == 110);
                assert(input@[e1] == 123);
            }
        }
        None
    } else if eat_lit(input, pos, "{\"userNotFound\":{}}") {
        proof {
            if obj && we.one_error != Some(OneErrorV::UserNotFound) {
                assert(input@.subrange(e1, e1 + 19) == encode_utf8("{\"userNotFound\":{}}"@));
                assert(input@[e1 + 2] == 117);
                match we.one_error {
                    None => {
                        assert(input@[e1] == 110);
                        assert(input@[e1] == 123);
                    },
                    Some(OneErrorV::NotEnoughMoney) => {
                        assert(input@[e1 + 2] == 110);
                    },
                    Some(OneErrorV::InvalidState) => {
                        assert(input@[e1 + 2] == 105);
                    },
                    Some(OneErrorV::BadParameter(nm)) => {
                        assert(input@[e1 + 2] == 98);
                    },
                    _ => {},
                }
            }
        }
        Some(OneError::UserNotFound)
    } else if eat_lit(input, pos, "{\"notEnoughMoney\":{}}") {
        proof {
            if obj && we.one_error != Some(OneErrorV::NotEnoughMoney) {
                assert(input@.subrange(e1, e1 + 21) == encode_utf8("{\"notEnoughMoney\":{}}"@));
                assert(input@[e1 + 2] == 110);
                match we.one_error {
                    None => {
                        assert(input@[e1] == 110);
                        assert(input@[e1] == 123);
                    },
                    Some(OneErrorV::UserNotFound) => {
                        assert(input@[e1 + 2] == 117);
                    },
                    Some(OneErrorV::InvalidState) => {
                        assert(input@[e1 + 2] == 105);
                    },
                    Some(OneErrorV::BadParameter(nm)) => {
                        assert(input@[e1 + 2] == 98);
                    },
                    _ => {},
                }
            }
        }
        Some(OneError::NotEnoughMoney)
    } else if eat_lit(input, pos, "{\"invalidState\":{}}") {
        proof {
            if obj && we.one_error != Some(OneErrorV::InvalidState) {
                assert(input@.subrange(e1, e1 + 19) == encode_utf8("{\"invalidState\":{}}"@));
                assert(input@[e1 + 2] == 105);
                match we.one_error {
                    None => {
                        assert(input@[e1] == 110);
                        assert(input@[e1] == 123);
                    },
                    Some(OneErrorV::UserNotFound) => {
                        assert(input@[e1 + 2] == 117);
                    },
                    Some(OneErrorV::NotEnoughMoney) => {
                        assert(input@[e1 + 2] == 110);
                    },
                    Some(OneErrorV::BadParameter(nm)) => {
                        assert(input@[e1 + 2] == 98);
                    },
                    _ => {},
                }
            }
        }
        Some(OneError::InvalidState)
    } else if eat_lit(input, pos, "{\"badParameter\":{\"name\":") {
        let ghost bp: Seq<char> = if obj && we.one_error matches Some(OneErrorV::BadParameter(n0)) {
            we.one_error->0->BadParameter_0
        } else {
            arbitrary()
        };
        let ghost bp_obj = obj && we.one_error matches Some(OneErrorV::BadParameter(n0));
        proof {
            if obj && !bp_obj {
                assert(input@.subrange(e1, e1 + 24) == encode_utf8(
                    "{\"badParameter\":{\"name\":"@,
                ));
                assert(input@[e1 + 2] == 98);
                match we.one_error {
                    None => {
                        assert(input@[e1] == 110);
                        assert(input@[e1] == 123);
                    },
                    Some(OneErrorV::UserNotFound) => {
                        assert(input@[e1 + 2] == 117);
                    },
                    Some(OneErrorV::NotEnoughMoney) => {
                        assert(input@[e1 + 2] == 110);
                    },
                    Some(OneErrorV::InvalidState) => {
                        assert(input@[e1 + 2] == 105);
                    },
                    _ => {},
                }
            }
        }
        let ghost b1 = *pos as int;
        proof {
            if bp_obj {
                assert(input@.skip(b1) == json_str(bp) + (encode_utf8("}}"@) + r2));
                lemma_strip_prefix(
                    input@,
                    b1,
                    b1 + json_str(bp).len(),
                    json_str(bp),
                    encode_utf8("}}"@) + r2,
                );
            }
        }
        let name = match parse_string(
            input,
            pos,
            Ghost(bp_obj),
            Ghost(bp),
            Ghost(encode_utf8("}}"@) + r2),
        ) {
            Some(s) => s,
            None => {
                return None;
            },
        };
        let ghost b2 = *pos as int;
        proof {
            if bp_obj {
                assert(input@.skip(b2) == encode_utf8("}}"@) + r2);
                lemma_strip_prefix(
                    input@,
                    b2,
                    b2 + encode_utf8("}}"@).len(),
                    encode_utf8("}}"@),
                    r2,
                );
            }
        }
        if !eat_lit(input, pos, "}}") {
            return None;
        }
        proof {
            assert(input@.subrange(e1, *pos as int) =~= input@.subrange(e1, b1)
                + input@.subrange(b1, b2) + input@.subrange(b2, *pos as int));
            assert(input@.subrange(e1, *pos as int) =~= json_one_error(
                Some(OneErrorV::BadParameter(name@)),
            ));
        }
        Some(OneError::BadParameter(name))
    } else {
        return None;
    };
    let ghost e2 = *pos as int;
    proof {
        assert(input@.subrange(e1, e2) == json_one_error(
            match one {
                Some(ref o) => Some(o@),
                None => None,
            },
        ));
        if obj {
            assert(input@.skip(e2) == r2);
            lemma_strip_prefix(
                input@,
                e2,
                e2 + encode_utf8("}"@).len(),
                encode_utf8("}"@),
                wrest,
            );
        }
    }
    if !eat_lit(input, pos, "}") {
        return None;
    }
    let e = crate::proto::ErrorOutput { one_error: one };
    proof {
        assert(input@.subrange(p0, *pos as int) =~= input@.subrange(p0, e1) + input@.subrange(
            e1,
            e2,
        ) + input@.subrange(e2, *pos as int));
        assert(input@.subrange(p0, *pos as int) =~= json_error(Some(e@)));
    }
    Some(Some(e))
}

/// Decodes a canonical JSON envelope. Any accepted input is exactly the
/// canonical encoding of the returned value, and every canonical
/// encoding is accepted.
#[verifier::rlimit(100)]
pub fn decode_generic_output(input: &[u8]) -> (r: Option<GenericOutput>)
    ensures
        r matches Some(o) ==> input@ == json_output(o@),
        (exists|o: GenericOutputV| input@ == json_output(o)) ==> r is Some,
{
    let ghost premise = exists|o: GenericOutputV| input@ == json_output(o);
    let ghost wo: GenericOutputV = if premise {
        choose|o: GenericOutputV| input@ == json_output(o)
    } else {
        arbitrary()
    };
    let ghost r3 = encode_utf8("}"@);
    let ghost r2 = json_error(wo.error) + r3;
    let ghost r1 = encode_utf8(",\"error\":"@) + r2;
    let ghost r0 = json_ub(wo.user_balance) + r1;
    let mut pos: usize = 0;
    proof {
        if premise {
            lemma_json_output_parts(wo);
            assert(input@.skip(0) =~= input@);
            lemma_strip_prefix(
                input@,
                0,
                encode_utf8("{\"userBalance\":"@).len() as int,
                encode_utf8("{\"userBalance\":"@),
                r0,
            );
        }
    }
    if !eat_lit(input, &mut pos, "{\"userBalance\":") {
        return None;
    }
    let ghost p1 = pos as int;
    proof {
        if premise {
            assert(input@.skip(p1) == r0);
            lemma_strip_prefix(input@, p1, p1 + json_ub(wo.user_balance).len(), json_ub(
                wo.user_balance,
            ), r1);
        }
    }
    let ub = match parse_ub_value(
        input,
        &mut pos,
        Ghost(premise),
        Ghost(if premise {
            wo.user_balance
        } else {
            None
        }),
        Ghost(r1),
    ) {
        Some(ub) => ub,
        None => {
            return None;
        },
    };
    let ghost p2 = pos as int;
    proof {
        assert(input@.subrange(p1, p2) == json_ub(
            match ub {
                Some(ref u) => Some(u@),
                None => None,
            },
        ));
        if premise {
            assert(input@.skip(p2) == r1);
            lemma_strip_prefix(
                input@,
                p2,
                p2 + encode_utf8(",\"error\":"@).len(),
                encode_utf8(",\"error\":"@),
                r2,
            );
        }
    }
    if !eat_lit(input, &mut pos, ",\"error\":") {
        return None;
    }
    let ghost p3 = pos as int;
    proof {
        if premise {
            assert(input@.skip(p3) == r2);
            lemma_strip_prefix(input@, p3, p3 + json_error(wo.error).len(), json_error(
                wo.error,
            ), r3);
        }
    }
    let err = match parse_error_value(
        input,
        &mut pos,
        Ghost(premise),
        Ghost(if premise {
            wo.error
        } else {
            None
        }),
        Ghost(r3),
    ) {
        Some(err) => err,
        None => {
            return None;
        },
    };
    let ghost p4 = pos as int;
    proof {
        assert(input@.subrange(p3, p4) == json_error(
            match err {
                Some(ref e) => Some(e@),
                None => None,
            },
        ));
        if premise {
            assert(input@.skip(p4) == r3);
            lemma_strip_prefix(
                input@,
                p4,
                p4 + encode_utf8("}"@).len(),
                encode_utf8("}"@),
                Seq::<u8>::empty(),
            );
            assert(r3 =~= encode_utf8("}"@) + Seq::<u8>::empty());
        }
    }
    if !eat_lit(input, &mut pos, "}") {
        return None;
    }
    if pos != input.len() {
        proof {
            if premise {
                assert(input@.skip(pos as int).len() == 0);
            }
        }
        return None;
    }
    let o = GenericOutput { user_balance: ub, error: err };
    proof {
        assert(input@ =~= input@.subrange(0, p1) + input@.subrange(p1, p2) + input@.subrange(
            p2,
            p3,
        ) + input@.subrange(p3, p4) + input@.subrange(p4, pos as int));
        assert(input@ =~= json_output(o@));
    }
    Some(o)
}

/// Encoding an envelope and decoding the bytes always succeeds, and the
/// decoded value encodes back to the same bytes: the JSON round trip,
/// both directions.
pub fn json_round_trip(o: &GenericOutput) -> (r: Option<GenericOutput>)
    ensures
        r is Some,
        r matches Some(o2) ==> json_output(o2@) == json_output(o@),
{
    let bytes = encode_generic_output(o);
    let r = decode_generic_output(bytes.as_slice());
    proof {
        assert(exists|o2: GenericOutputV| bytes@ == json_output(o2)) by {
            assert(bytes@ == json_output(o@));
        }
    }
    r
}

/// Decoding a canonical JSON envelope and encoding the result gives the
/// same bytes: the byte-stability of the JSON round trip.
pub fn json_reencode(input: &[u8]) -> (r: Option<Vec<u8>>)
    ensures
        r matches Some(out) ==> out@ == input@,
{
    match decode_generic_output(input) {
        Some(o) => Some(encode_generic_output(&o)),
        None => None,
    }
}

} // verus!
