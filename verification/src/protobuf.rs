//! Protobuf wire encoding of the response envelope.
//!
//! The envelope is message `GenericOutput` with submessage fields
//! `user_balance = 1` and `error = 2`. `UserBalanceData` carries strings
//! `user_id = 1`, `currency = 2`, `value = 3`, `reserved_value = 4` and
//! bool `is_overdraft = 5`. The error message holds one of the empty
//! messages `user_not_found = 1`, `not_enough_money = 2`,
//! `invalid_state = 3`, or `bad_parameter = 4` with string `name = 1`.
//! Encoding follows the common proto3 rules: empty strings, false
//! booleans and absent submessages are omitted; lengths and tags are
//! little-endian base-128 varints. The decoder accepts exactly the
//! canonical bytes the encoder writes, so decoding and re-encoding any
//! accepted input returns the same bytes.

use crate::proto::{
    ErrorOutput, ErrorOutputV, GenericOutput, GenericOutputV, OneError, OneErrorV,
    UserBalanceData, UserBalanceDataV,
};
use vstd::arithmetic::div_mod::lemma_fundamental_div_mod_converse;
use vstd::prelude::*;
use vstd::utf8::encode_utf8;

verus! {

/// Little-endian base-128 varint bytes of a number.
pub open spec fn varint(n: nat) -> Seq<u8>
    decreases n,
{
    if n < 128 {
        seq![n as u8]
    } else {
        seq![(128 + n % 128) as u8] + varint(n / 128)
    }
}

/// A string field: omitted when empty, else tag, length and bytes.
pub open spec fn pb_string_field(tag: u8, s: Seq<char>) -> Seq<u8> {
    if encode_utf8(s).len() == 0 {
        Seq::empty()
    } else {
        seq![tag] + varint(encode_utf8(s).len()) + encode_utf8(s)
    }
}

/// The body of the balance message.
pub open spec fn pb_ub_body(u: UserBalanceDataV) -> Seq<u8> {
    pb_string_field(10, u.user_id) + pb_string_field(18, u.currency) + pb_string_field(
        26,
        u.value,
    ) + pb_string_field(34, u.reserved_value) + (if u.is_overdraft {
        seq![40u8, 1u8]
    } else {
        Seq::<u8>::empty()
    })
}

/// The body of the error message: one tagged case, or nothing.
pub open spec fn pb_err_body(e: ErrorOutputV) -> Seq<u8> {
    match e.one_error {
        None => Seq::empty(),
        Some(OneErrorV::UserNotFound) => seq![10u8, 0u8],
        Some(OneErrorV::NotEnoughMoney) => seq![18u8, 0u8],
        Some(OneErrorV::InvalidState) => seq![26u8, 0u8],
        Some(OneErrorV::BadParameter(name)) => seq![34u8] + varint(
            pb_string_field(10, name).len(),
        ) + pb_string_field(10, name),
    }
}

/// The whole envelope on the wire.
pub open spec fn pb_output(o: GenericOutputV) -> Seq<u8> {
    (match o.user_balance {
        None => Seq::<u8>::empty(),
        Some(u) => seq![10u8] + varint(pb_ub_body(u).len()) + pb_ub_body(u),
    }) + (match o.error {
        None => Seq::<u8>::empty(),
        Some(e) => seq![18u8] + varint(pb_err_body(e).len()) + pb_err_body(e),
    })
}

/// Appends the varint bytes of a number.
fn push_varint(out: &mut Vec<u8>, n: usize)
    ensures
        final(out)@ == old(out)@ + varint(n as nat),
{
    let ghost n0 = n as nat;
    let ghost before = out@;
    let mut x: usize = n;
    proof {
        assert(before + varint(n0) =~= before + varint(x as nat));
    }
    loop
        invariant
            x >= 0,
            n0 == n as nat,
            before == old(out)@,
            before + varint(n0) == out@ + varint(x as nat),
        decreases x,
    {
        if x < 128 {
            out.push(x as u8);
            proof {
                assert(out@ =~= before + varint(n0));
            }
            return ;
        }
        let ghost old_x = x as nat;
        let b: u8 = (x % 128) as u8 + 128;
        out.push(b);
        x = x / 128;
        proof {
            assert(varint(old_x) =~= seq![b] + varint(x as nat));
            assert(out@ + varint(x as nat) =~= before + varint(n0));
        }
    }
}

/// Appends the bytes of a slice.
fn push_bytes(out: &mut Vec<u8>, b: &[u8])
    ensures
        final(out)@ == old(out)@ + b@,
{
    let ghost before = out@;
    let n = b.len();
    let mut i: usize = 0;
    while i < n
        invariant
            0 <= i <= n,
            n == b@.len(),
            out@ == before + b@.take(i as int),
        decreases n - i,
    {
        out.push(b[i]);
        proof {
            assert(out@ =~= before + b@.take(i as int + 1));
        }
        i = i + 1;
    }
    proof {
        assert(b@.take(b@.len() as int) =~= b@);
    }
}

/// Appends a string field in wire form.
fn push_string_field(out: &mut Vec<u8>, tag: u8, s: &str)
    ensures
        final(out)@ == old(out)@ + pb_string_field(tag, s@),
{
    let b = s.as_bytes();
    if b.len() == 0 {
        proof {
            assert(out@ =~= old(out)@ + pb_string_field(tag, s@));
        }
        return ;
    }
    let ghost before = out@;
    out.push(tag);
    push_varint(out, b.len());
    push_bytes(out, b);
    proof {
        assert(out@ =~= before + pb_string_field(tag, s@));
    }
}

/// Encodes the balance message body.
fn encode_ub_body(u: &UserBalanceData) -> (r: Vec<u8>)
    ensures
        r@ == pb_ub_body(u@),
{
    let mut out: Vec<u8> = Vec::new();
    push_string_field(&mut out, 10, u.user_id.as_str());
    push_string_field(&mut out, 18, u.currency.as_str());
    push_string_field(&mut out, 26, u.value.as_str());
    push_string_field(&mut out, 34, u.reserved_value.as_str());
    if u.is_overdraft {
        out.push(40);
        out.push(1);
    }
    proof {
        assert(out@ =~= pb_ub_body(u@));
    }
    out
}

/// Encodes the error message body.
fn encode_err_body(e: &ErrorOutput) -> (r: Vec<u8>)
    ensures
        r@ == pb_err_body(e@),
{
    let mut out: Vec<u8> = Vec::new();
    match &e.one_error {
        None => {},
        Some(OneError::UserNotFound) => {
            out.push(10);
            out.push(0);
        },
        Some(OneError::NotEnoughMoney) => {
            out.push(18);
            out.push(0);
        },
        Some(OneError::InvalidState) => {
            out.push(26);
            out.push(0);
        },
        Some(OneError::BadParameter(name)) => {
            let mut body: Vec<u8> = Vec::new();
            push_string_field(&mut body, 10, name.as_str());
            out.push(34);
            push_varint(&mut out, body.len());
            push_bytes(&mut out, body.as_slice());
        },
    }
    proof {
        assert(out@ =~= pb_err_body(e@));
    }
    out
}

/// Encodes the envelope in the protobuf wire format.
pub fn encode_generic_output_protobuf(o: &GenericOutput) -> (r: Vec<u8>)
    ensures
        r@ == pb_output(o@),
{
    let mut out: Vec<u8> = Vec::new();
    match &o.user_balance {
        None => {},
        Some(u) => {
            let body = encode_ub_body(u);
            out.push(10);
            push_varint(&mut out, body.len());
            push_bytes(&mut out, body.as_slice());
        },
    }
    let ghost mid = out@;
    proof {
        assert(mid =~= match o@.user_balance {
            None => Seq::<u8>::empty(),
            Some(u) => seq![10u8] + varint(pb_ub_body(u).len()) + pb_ub_body(u),
        });
    }
    match &o.error {
        None => {},
        Some(e) => {
            let body = encode_err_body(e);
            out.push(18);
            push_varint(&mut out, body.len());
            push_bytes(&mut out, body.as_slice());
        },
    }
    proof {
        assert(out@ =~= pb_output(o@));
    }
    out
}

/// No varint is a proper prefix of another: equal streams that start
/// with varints carry the same value and the same tail.
pub proof fn lemma_varint_prefix_free(a: nat, b: nat, r1: Seq<u8>, r2: Seq<u8>)
    requires
        varint(a) + r1 == varint(b) + r2,
    ensures
        a == b,
        r1 == r2,
    decreases a,
{
    let s = varint(a) + r1;
    assert(s[0] == varint(a)[0]);
    assert(s[0] == (varint(b) + r2)[0]);
    assert(s[0] == varint(b)[0]);
    if a < 128 && b < 128 {
        assert(varint(a) =~= seq![a as u8]);
        assert(varint(b) =~= seq![b as u8]);
        assert(seq![a as u8] + r1 == seq![b as u8] + r2);
        assert((seq![a as u8] + r1).len() == 1 + r1.len());
        assert((seq![b as u8] + r2).len() == 1 + r2.len());
        assert(r1.len() == r2.len());
        assert(r1 =~= r2) by {
            assert(forall|i: int|
                0 <= i < r1.len() ==> #[trigger] r1[i] == (seq![a as u8] + r1)[i + 1] && (seq![
                    a as u8,
                ] + r1)[i + 1] == (seq![b as u8] + r2)[i + 1] && (seq![b as u8] + r2)[i + 1]
                    == r2[i]);
        }
    } else if a >= 128 && b >= 128 {
        let ta = varint(a / 128) + r1;
        let tb = varint(b / 128) + r2;
        assert(varint(a) =~= seq![(128 + a % 128) as u8] + varint(a / 128));
        assert(varint(b) =~= seq![(128 + b % 128) as u8] + varint(b / 128));
        assert(s =~= seq![s[0]] + ta);
        assert(varint(b) + r2 =~= seq![s[0]] + tb);
        assert(ta =~= tb) by {
            assert(forall|i: int|
                0 <= i < ta.len() ==> #[trigger] ta[i] == (seq![s[0]] + ta)[i + 1] && (seq![
                    s[0],
                ] + tb)[i + 1] == tb[i]);
        }
        lemma_varint_prefix_free(a / 128, b / 128, r1, r2);
        vstd::arithmetic::div_mod::lemma_fundamental_div_mod(a as int, 128);
        vstd::arithmetic::div_mod::lemma_fundamental_div_mod(b as int, 128);
    } else {
        assert(false);
    }
}

/// Reads one canonical varint at the cursor. Only minimal encodings are
/// accepted, so the consumed bytes are exactly the varint of the value;
/// a stream that starts with any varint is read successfully.
fn read_varint(input: &[u8], pos: &mut usize) -> (r: Option<u64>)
    requires
        *old(pos) <= input@.len(),
    ensures
        *final(pos) <= input@.len(),
        r matches Some(v) ==> *old(pos) < *final(pos) && input@.subrange(
            *old(pos) as int,
            *final(pos) as int,
        ) == varint(v as nat),
        (exists|v2: u64, rest: Seq<u8>|
            input@.skip(*old(pos) as int) == varint(v2 as nat) + rest) ==> r is Some,
    decreases input@.len() - *old(pos),
{
    let ghost premise = exists|v2: u64, rest: Seq<u8>|
        input@.skip(*old(pos) as int) == varint(v2 as nat) + rest;
    let ghost (w, wrest): (u64, Seq<u8>) = if premise {
        choose|v2: u64, rest: Seq<u8>|
            input@.skip(*old(pos) as int) == varint(v2 as nat) + rest
    } else {
        (0u64, Seq::empty())
    };
    if *pos >= input.len() {
        proof {
            if premise {
                assert(input@.skip(*pos as int).len() >= varint(w as nat).len());
                assert(varint(w as nat).len() >= 1);
            }
        }
        return None;
    }
    let base = *pos;
    let b = input[base];
    proof {
        if premise {
            assert(b == input@.skip(base as int)[0]);
            assert(b == varint(w as nat)[0]);
        }
    }
    if b < 128 {
        *pos = base + 1;
        proof {
            assert(input@.subrange(base as int, base as int + 1) =~= varint(b as nat));
        }
        return Some(b as u64);
    }
    let low: u8 = b - 128;
    *pos = base + 1;
    proof {
        if premise {
            // The tail after the continuation byte starts with the varint
            // of the remaining groups.
            assert(w as nat >= 128);
            assert(input@.skip(base as int + 1) =~= varint((w / 128) as nat) + wrest) by {
                let t = varint((w / 128) as nat) + wrest;
                assert(input@.skip(base as int) == varint(w as nat) + wrest);
                assert(varint(w as nat) =~= seq![(128 + (w as nat) % 128) as u8] + varint(
                    (w / 128) as nat,
                ));
                assert(varint(w as nat) + wrest =~= seq![(128 + (w as nat) % 128) as u8] + t);
                assert(forall|i: int|
                    0 <= i < input@.skip(base as int + 1).len() ==> #[trigger] input@.skip(
                        base as int + 1,
                    )[i] == input@.skip(base as int)[i + 1] && input@.skip(base as int)[i + 1]
                        == (seq![(128 + (w as nat) % 128) as u8] + t)[i + 1]);
            }
        }
    }
    let rest = match read_varint(input, pos) {
        Some(v) => v,
        None => {
            proof {
                if premise {
                    assert(exists|v2: u64, rest2: Seq<u8>|
                        input@.skip(base as int + 1) == varint(v2 as nat) + rest2) by {
                        assert(input@.skip(base as int + 1) == varint(((w / 128) as u64) as nat)
                            + wrest);
                    }
                }
            }
            return None;
        },
    };
    proof {
        if premise {
            assert(input@.subrange(base as int + 1, *pos as int) == varint(rest as nat));
            assert(input@.skip(base as int + 1) =~= varint(rest as nat) + input@.skip(
                *pos as int,
            ));
            lemma_varint_prefix_free(
                rest as nat,
                (w / 128) as nat,
                input@.skip(*pos as int),
                wrest,
            );
            assert(rest == w / 128);
            vstd::arithmetic::div_mod::lemma_fundamental_div_mod(w as int, 128);
            assert(low as u64 == w % 128);
        }
    }
    if rest == 0 {
        return None;
    }
    if rest > (u64::MAX - low as u64) / 128 {
        return None;
    }
    let v: u64 = 128 * rest + low as u64;
    proof {
        lemma_fundamental_div_mod_converse(v as int, 128, rest as int, low as int);
        assert(varint(v as nat) =~= seq![b] + varint(rest as nat));
        assert(input@.subrange(base as int, *pos as int) =~= seq![b] + input@.subrange(
            base as int + 1,
            *pos as int,
        ));
    }
    Some(v)
}

/// Reads a varint that must fit a machine length.
fn read_varint_usize(input: &[u8], pos: &mut usize) -> (r: Option<usize>)
    requires
        *old(pos) <= input@.len(),
    ensures
        *final(pos) <= input@.len(),
        r matches Some(v) ==> *old(pos) < *final(pos) && input@.subrange(
            *old(pos) as int,
            *final(pos) as int,
        ) == varint(v as nat),
        (exists|v2: usize, rest: Seq<u8>|
            input@.skip(*old(pos) as int) == varint(v2 as nat) + rest) ==> r is Some,
{
    let ghost premise = exists|v2: usize, rest: Seq<u8>|
        input@.skip(*old(pos) as int) == varint(v2 as nat) + rest;
    let ghost (w, wrest): (usize, Seq<u8>) = if premise {
        choose|v2: usize, rest: Seq<u8>|
            input@.skip(*old(pos) as int) == varint(v2 as nat) + rest
    } else {
        (0usize, Seq::empty())
    };
    proof {
        if premise {
            assert(exists|v2: u64, rest: Seq<u8>|
                input@.skip(*old(pos) as int) == varint(v2 as nat) + rest) by {
                assert(input@.skip(*old(pos) as int) == varint((w as u64) as nat) + wrest);
            }
        }
    }
    match read_varint(input, pos) {
        Some(v) => {
            proof {
                if premise {
                    assert(input@.skip(*old(pos) as int) =~= varint(v as nat) + input@.skip(
                        *pos as int,
                    ));
                    lemma_varint_prefix_free(
                        v as nat,
                        w as nat,
                        input@.skip(*pos as int),
                        wrest,
                    );
                }
            }
            if v <= usize::MAX as u64 {
                Some(v as usize)
            } else {
                None
            }
        },
        None => None,
    }
}

/// A stream that starts with a string field of a tag, and whose tail
/// does not continue with the same tag, determines the field: whatever
/// field of that tag the parser read from it covers the same bytes.
proof fn lemma_string_field_step(
    stream: Seq<u8>,
    tag: u8,
    got: Seq<char>,
    fv: Seq<char>,
    rest: Seq<u8>,
)
    requires
        stream == pb_string_field(tag, fv) + rest,
        rest.len() == 0 || rest[0] != tag,
        pb_string_field(tag, got).len() <= stream.len(),
        stream.subrange(0, pb_string_field(tag, got).len() as int) == pb_string_field(tag, got),
        got.len() == 0 ==> stream.len() == 0 || stream[0] != tag,
    ensures
        pb_string_field(tag, got).len() == pb_string_field(tag, fv).len(),
        stream.skip(pb_string_field(tag, got).len() as int) == rest,
{
    let gb = encode_utf8(got);
    let fb = encode_utf8(fv);
    if fb.len() == 0 {
        // The field is absent; the parser cannot have read one either.
        if gb.len() > 0 {
            assert(stream[0] == pb_string_field(tag, got)[0]);
            assert(stream[0] == tag);
            assert(rest[0] == tag);
        }
        assert(stream.skip(0) =~= rest);
    } else {
        if gb.len() == 0 {
            assert(stream[0] == (pb_string_field(tag, fv) + rest)[0]);
            assert(stream[0] == tag);
        }
        assert(gb.len() > 0);
        let gskip = stream.skip(pb_string_field(tag, got).len() as int);
        let ta = varint(gb.len()) + (gb + gskip);
        let tb = varint(fb.len()) + (fb + rest);
        assert(stream =~= pb_string_field(tag, got) + gskip);
        assert(stream =~= seq![tag] + ta) by {
            assert(pb_string_field(tag, got) =~= seq![tag] + (varint(gb.len()) + gb));
            assert(forall|i: int|
                0 <= i < stream.len() ==> #[trigger] stream[i] == (pb_string_field(tag, got)
                    + gskip)[i]);
            assert(forall|i: int|
                0 <= i < ta.len() ==> #[trigger] (seq![tag] + ta)[i + 1] == ta[i]);
        }
        assert(stream =~= seq![tag] + tb) by {
            assert(pb_string_field(tag, fv) =~= seq![tag] + (varint(fb.len()) + fb));
            assert(forall|i: int|
                0 <= i < stream.len() ==> #[trigger] stream[i] == (pb_string_field(tag, fv)
                    + rest)[i]);
            assert(forall|i: int|
                0 <= i < tb.len() ==> #[trigger] (seq![tag] + tb)[i + 1] == tb[i]);
        }
        assert(ta =~= tb) by {
            assert(forall|i: int|
                0 <= i < ta.len() ==> #[trigger] ta[i] == (seq![tag] + ta)[i + 1] && (seq![tag]
                    + tb)[i + 1] == tb[i]);
        }
        lemma_varint_prefix_free(gb.len(), fb.len(), gb + gskip, fb + rest);
        assert(gskip =~= rest) by {
            let k = gb.len() as int;
            let t1 = gb + gskip;
            let t2 = fb + rest;
            assert(t1 == t2);
            assert(forall|i: int|
                0 <= i < rest.len() ==> #[trigger] t1[k + i] == t2[k + i] && t1[k + i]
                    == gskip[i] && t2[k + i] == rest[i]);
        }
    }
}

/// Reads an optional string field: absent when the next byte is not the
/// field's tag, else tag, a positive length, and that many bytes. A
/// stream that starts with a string field of the tag, not continued by
/// the same tag, is read successfully.
fn read_opt_string_field(input: &[u8], pos: &mut usize, tag: u8) -> (r: Option<String>)
    requires
        *old(pos) <= input@.len(),
    ensures
        *final(pos) <= input@.len(),
        r matches Some(s) ==> *old(pos) <= *final(pos) && input@.subrange(
            *old(pos) as int,
            *final(pos) as int,
        ) == pb_string_field(tag, s@),
        r matches Some(s) && s@.len() == 0 ==> *final(pos) == *old(pos) && (*old(
            pos,
        ) as int == input@.len() || input@[*old(pos) as int] != tag),
        (exists|sv: Seq<char>, rest: Seq<u8>|
            input@.skip(*old(pos) as int) == pb_string_field(tag, sv) + rest && (rest.len() == 0
                || rest[0] != tag)) ==> r is Some,
{
    let ghost premise = exists|sv: Seq<char>, rest: Seq<u8>|
        input@.skip(*old(pos) as int) == pb_string_field(tag, sv) + rest && (rest.len() == 0
            || rest[0] != tag);
    let ghost (wv, wrest): (Seq<char>, Seq<u8>) = if premise {
        choose|sv: Seq<char>, rest: Seq<u8>|
            input@.skip(*old(pos) as int) == pb_string_field(tag, sv) + rest && (rest.len() == 0
                || rest[0] != tag)
    } else {
        (Seq::empty(), Seq::empty())
    };
    let base = *pos;
    if base >= input.len() || input[base] != tag {
        let s = String::new();
        proof {
            assert(encode_utf8(s@) =~= Seq::<u8>::empty());
            assert(input@.subrange(base as int, base as int) =~= pb_string_field(tag, s@));
        }
        return Some(s);
    }
    proof {
        if premise {
            // The stream starts with the tag, so the field is present and
            // the tail after the tag starts with its length varint.
            if encode_utf8(wv).len() == 0 {
                assert(input@.skip(base as int) == wrest);
                assert(wrest[0] == input@[base as int]);
            }
            assert(encode_utf8(wv).len() > 0);
            let t = varint(encode_utf8(wv).len()) + (encode_utf8(wv) + wrest);
            assert(input@.skip(base as int + 1) =~= varint(encode_utf8(wv).len()) + (encode_utf8(
                wv,
            ) + wrest)) by {
                assert(input@.skip(base as int) == pb_string_field(tag, wv) + wrest);
                assert(pb_string_field(tag, wv) + wrest =~= seq![tag] + t);
                assert(forall|i: int|
                    0 <= i < input@.skip(base as int + 1).len() ==> #[trigger] input@.skip(
                        base as int + 1,
                    )[i] == input@.skip(base as int)[i + 1] && input@.skip(base as int)[i + 1]
                        == (seq![tag] + t)[i + 1]);
            }
        }
    }
    *pos = base + 1;
    let len = match read_varint_usize(input, pos) {
        Some(v) => v,
        None => {
            proof {
                if premise {
                    let lw = encode_utf8(wv).len();
                    assert(lw <= usize::MAX) by {
                        assert(input@.skip(base as int).len() >= pb_string_field(tag, wv).len());
                    }
                    assert(exists|v2: usize, rest2: Seq<u8>|
                        input@.skip(base as int + 1) == varint(v2 as nat) + rest2) by {
                        assert(input@.skip(base as int + 1) == varint((lw as usize) as nat) + (
                        encode_utf8(wv) + wrest));
                    }
                }
            }
            return None;
        },
    };
    proof {
        if premise {
            assert(input@.subrange(base as int + 1, *pos as int) == varint(len as nat));
            assert(input@.skip(base as int + 1) =~= varint(len as nat) + input@.skip(
                *pos as int,
            ));
            lemma_varint_prefix_free(
                len as nat,
                encode_utf8(wv).len(),
                input@.skip(*pos as int),
                encode_utf8(wv) + wrest,
            );
            assert(len as int == encode_utf8(wv).len());
            assert(input@.skip(*pos as int) == encode_utf8(wv) + wrest);
        }
    }
    if len == 0 {
        return None;
    }
    if len > input.len() - *pos {
        proof {
            if premise {
                assert(input@.skip(*pos as int).len() >= encode_utf8(wv).len());
            }
        }
        return None;
    }
    let ghost lpos = *pos as int;
    let start = *pos;
    let mut raw: Vec<u8> = Vec::new();
    let mut k: usize = 0;
    while k < len
        invariant
            0 <= k <= len,
            start + len <= input@.len(),
            input@.len() <= usize::MAX,
            raw@ == input@.subrange(start as int, start as int + k as int),
        decreases len - k,
    {
        raw.push(input[start + k]);
        proof {
            assert(raw@ =~= input@.subrange(start as int, start as int + k as int + 1));
        }
        k = k + 1;
    }
    *pos = start + len;
    proof {
        if premise {
            assert(raw@ =~= encode_utf8(wv)) by {
                assert(input@.skip(start as int) == encode_utf8(wv) + wrest);
                assert(forall|i: int|
                    0 <= i < len as int ==> #[trigger] raw@[i] == input@[start as int + i]
                        && input@.skip(start as int)[i] == (encode_utf8(wv) + wrest)[i]);
            }
            vstd::utf8::encode_utf8_valid_utf8(wv);
        }
    }
    let s = match crate::strutil::string_from_utf8(raw) {
        Some(s) => s,
        None => {
            return None;
        },
    };
    proof {
        assert(encode_utf8(s@).len() == len as int);
        assert(input@.subrange(base as int, *pos as int) =~= seq![tag] + varint(len as nat)
            + encode_utf8(s@));
    }
    Some(s)
}

/// Decomposes a well-formed balance body into its four string fields and
/// overdraft part, with the side fact that each tail does not begin with
/// the preceding field's tag.
proof fn lemma_ub_decomp(sub: Seq<u8>, w: UserBalanceDataV)
    requires
        sub == pb_ub_body(w),
    ensures
        ({
            let f1 = pb_string_field(10, w.user_id);
            let f2 = pb_string_field(18, w.currency);
            let f3 = pb_string_field(26, w.value);
            let f4 = pb_string_field(34, w.reserved_value);
            let fb: Seq<u8> = if w.is_overdraft {
                seq![40u8, 1u8]
            } else {
                Seq::<u8>::empty()
            };
            let rest1 = f2 + (f3 + (f4 + fb));
            let rest2 = f3 + (f4 + fb);
            let rest3 = f4 + fb;
            &&& sub == f1 + rest1
            &&& rest1 == f2 + rest2
            &&& rest2 == f3 + rest3
            &&& rest3 == f4 + fb
            &&& (rest1.len() == 0 || rest1[0] != 10)
            &&& (rest2.len() == 0 || rest2[0] != 18)
            &&& (rest3.len() == 0 || rest3[0] != 26)
            &&& (fb.len() == 0 || fb[0] != 34)
        }),
{
    let f1 = pb_string_field(10, w.user_id);
    let f2 = pb_string_field(18, w.currency);
    let f3 = pb_string_field(26, w.value);
    let f4 = pb_string_field(34, w.reserved_value);
    let fb: Seq<u8> = if w.is_overdraft {
        seq![40u8, 1u8]
    } else {
        Seq::<u8>::empty()
    };
    vstd::seq_lib::lemma_concat_associative(f1 + f2 + f3, f4, fb);
    vstd::seq_lib::lemma_concat_associative(f1 + f2, f3, f4 + fb);
    vstd::seq_lib::lemma_concat_associative(f1, f2, f3 + (f4 + fb));
    let rest1 = f2 + (f3 + (f4 + fb));
    let rest2 = f3 + (f4 + fb);
    let rest3 = f4 + fb;
    assert(rest1.len() == 0 || rest1[0] != 10) by {
        if f2.len() > 0 {
            assert(rest1[0] == f2[0]);
        } else if f3.len() > 0 {
            assert(rest1[0] == f3[0]);
        } else if f4.len() > 0 {
            assert(rest1[0] == f4[0]);
        } else if fb.len() > 0 {
            assert(rest1[0] == fb[0]);
        }
    }
    assert(rest2.len() == 0 || rest2[0] != 18) by {
        if f3.len() > 0 {
            assert(rest2[0] == f3[0]);
        } else if f4.len() > 0 {
            assert(rest2[0] == f4[0]);
        } else if fb.len() > 0 {
            assert(rest2[0] == fb[0]);
        }
    }
    assert(rest3.len() == 0 || rest3[0] != 26) by {
        if f4.len() > 0 {
            assert(rest3[0] == f4[0]);
        } else if fb.len() > 0 {
            assert(rest3[0] == fb[0]);
        }
    }
}

/// Reads the four string fields of the balance message body. When the
/// whole body is well formed for the given witness, all four reads
/// succeed and the cursor stops at the overdraft part.
#[verifier::rlimit(100)]
fn read_ub_strings(
    sub: &[u8],
    pos: &mut usize,
    Ghost(premise): Ghost<bool>,
    Ghost(w): Ghost<UserBalanceDataV>,
) -> (r: Option<(String, String, String, String)>)
    requires
        *old(pos) == 0,
        premise ==> sub@ == pb_ub_body(w),
    ensures
        *final(pos) <= sub@.len(),
        r matches Some(t) ==> sub@.subrange(0, *final(pos) as int) =~= pb_string_field(10, t.0@)
            + pb_string_field(18, t.1@) + pb_string_field(26, t.2@) + pb_string_field(
            34,
            t.3@,
        ),
        premise ==> r is Some && sub@.skip(*final(pos) as int) == (if w.is_overdraft {
            seq![40u8, 1u8]
        } else {
            Seq::<u8>::empty()
        }),
{
    let ghost f1 = pb_string_field(10, w.user_id);
    let ghost f2 = pb_string_field(18, w.currency);
    let ghost f3 = pb_string_field(26, w.value);
    let ghost f4 = pb_string_field(34, w.reserved_value);
    let ghost fb: Seq<u8> = if w.is_overdraft {
        seq![40u8, 1u8]
    } else {
        Seq::<u8>::empty()
    };
    proof {
        if premise {
            lemma_ub_decomp(sub@, w);
            assert(sub@.skip(0) =~= sub@);
        }
    }
    let user_id = match read_opt_string_field(sub, pos, 10) {
        Some(s) => s,
        None => {
            return None;
        },
    };
    let ghost q1 = *pos as int;
    proof {
        if premise {
            lemma_string_field_step(sub@, 10, user_id@, w.user_id, f2 + (f3 + (f4 + fb)));
            assert(sub@.skip(q1) == f2 + (f3 + (f4 + fb)));
        }
    }
    let currency = match read_opt_string_field(sub, pos, 18) {
        Some(s) => s,
        None => {
            return None;
        },
    };
    let ghost q2 = *pos as int;
    proof {
        if premise {
            assert(sub@.skip(q1).subrange(0, *pos as int - q1) =~= sub@.subrange(
                q1,
                *pos as int,
            ));
            if currency@.len() == 0 && sub@.skip(q1).len() > 0 {
                assert(sub@.skip(q1)[0] == sub@[q1]);
            }
            lemma_string_field_step(sub@.skip(q1), 18, currency@, w.currency, f3 + (f4 + fb));
            assert(sub@.skip(q2) =~= sub@.skip(q1).skip(q2 - q1));
            assert(sub@.skip(q2) == f3 + (f4 + fb));
        }
    }
    let value = match read_opt_string_field(sub, pos, 26) {
        Some(s) => s,
        None => {
            return None;
        },
    };
    let ghost q3 = *pos as int;
    proof {
        if premise {
            assert(sub@.skip(q2).subrange(0, *pos as int - q2) =~= sub@.subrange(
                q2,
                *pos as int,
            ));
            if value@.len() == 0 && sub@.skip(q2).len() > 0 {
                assert(sub@.skip(q2)[0] == sub@[q2]);
            }
            lemma_string_field_step(sub@.skip(q2), 26, value@, w.value, f4 + fb);
            assert(sub@.skip(q3) =~= sub@.skip(q2).skip(q3 - q2));
            assert(sub@.skip(q3) == f4 + fb);
        }
    }
    let reserved_value = match read_opt_string_field(sub, pos, 34) {
        Some(s) => s,
        None => {
            return None;
        },
    };
    let ghost q4 = *pos as int;
    proof {
        if premise {
            assert(sub@.skip(q3).subrange(0, *pos as int - q3) =~= sub@.subrange(
                q3,
                *pos as int,
            ));
            if reserved_value@.len() == 0 && sub@.skip(q3).len() > 0 {
                assert(sub@.skip(q3)[0] == sub@[q3]);
            }
            lemma_string_field_step(sub@.skip(q3), 34, reserved_value@, w.reserved_value, fb);
            assert(sub@.skip(q4) =~= sub@.skip(q3).skip(q4 - q3));
            assert(sub@.skip(q4) == fb);
        }
        assert(sub@.subrange(0, q4) =~= sub@.subrange(0, q1) + sub@.subrange(q1, q2)
            + sub@.subrange(q2, q3) + sub@.subrange(q3, q4));
    }
    Some((user_id, currency, value, reserved_value))
}

/// Decodes the body of the balance message; every well-formed body is
/// accepted.
#[verifier::rlimit(100)]
fn decode_ub_body(sub: &[u8]) -> (r: Option<UserBalanceData>)
    ensures
        r matches Some(u) ==> sub@ == pb_ub_body(u@),
        (exists|u: UserBalanceDataV| sub@ == pb_ub_body(u)) ==> r is Some,
{
    let ghost premise = exists|u: UserBalanceDataV| sub@ == pb_ub_body(u);
    let ghost w: UserBalanceDataV = if premise {
        choose|u: UserBalanceDataV| sub@ == pb_ub_body(u)
    } else {
        arbitrary()
    };
    let mut pos: usize = 0;
    let (user_id, currency, value, reserved_value) = match read_ub_strings(
        sub,
        &mut pos,
        Ghost(premise),
        Ghost(w),
    ) {
        Some(t) => t,
        None => {
            return None;
        },
    };
    let ghost q4 = pos as int;
    proof {
        if premise && w.is_overdraft {
            assert(sub@[q4] == sub@.skip(q4)[0]);
            assert(sub@[q4 + 1] == sub@.skip(q4)[1]);
            assert(sub@.len() - q4 == 2);
        }
        if premise && !w.is_overdraft {
            assert(sub@.len() == q4);
        }
    }
    let is_overdraft: bool = if pos < sub.len() && sub[pos] == 40 {
        if pos + 1 >= sub.len() || sub[pos + 1] != 1 {
            return None;
        }
        pos = pos + 2;
        true
    } else {
        false
    };
    if pos != sub.len() {
        return None;
    }
    let u = UserBalanceData { user_id, currency, value, reserved_value, is_overdraft };
    proof {
        assert(sub@ =~= sub@.subrange(0, q4) + sub@.skip(q4));
        if u.is_overdraft {
            assert(sub@.skip(q4) =~= seq![40u8, 1u8]);
        } else {
            assert(sub@.skip(q4) =~= Seq::<u8>::empty());
        }
        assert(sub@ =~= pb_ub_body(u@));
    }
    Some(u)
}

/// Decodes the body of the bad-parameter message; every well-formed
/// body is accepted.
fn decode_bad_param_body(sub: &[u8]) -> (r: Option<String>)
    ensures
        r matches Some(name) ==> sub@ == pb_string_field(10, name@),
        (exists|nv: Seq<char>| sub@ == pb_string_field(10, nv)) ==> r is Some,
{
    let ghost premise = exists|nv: Seq<char>| sub@ == pb_string_field(10, nv);
    let ghost wn: Seq<char> = if premise {
        choose|nv: Seq<char>| sub@ == pb_string_field(10, nv)
    } else {
        Seq::empty()
    };
    proof {
        if premise {
            assert(sub@.skip(0) =~= sub@);
            assert(sub@ =~= pb_string_field(10, wn) + Seq::<u8>::empty());
        }
    }
    let mut pos: usize = 0;
    let name = match read_opt_string_field(sub, &mut pos, 10) {
        Some(s) => s,
        None => {
            return None;
        },
    };
    proof {
        if premise {
            lemma_string_field_step(sub@, 10, name@, wn, Seq::<u8>::empty());
        }
    }
    if pos != sub.len() {
        return None;
    }
    proof {
        assert(sub@ =~= sub@.subrange(0, pos as int));
    }
    Some(name)
}

/// Decodes the body of the error message; every well-formed body is
/// accepted.
#[verifier::rlimit(100)]
fn decode_err_body(sub: &[u8]) -> (r: Option<ErrorOutput>)
    ensures
        r matches Some(e) ==> sub@ == pb_err_body(e@),
        (exists|e: ErrorOutputV| sub@ == pb_err_body(e)) ==> r is Some,
{
    let ghost premise = exists|e: ErrorOutputV| sub@ == pb_err_body(e);
    let ghost we: ErrorOutputV = if premise {
        choose|e: ErrorOutputV| sub@ == pb_err_body(e)
    } else {
        arbitrary()
    };
    if sub.len() == 0 {
        let e = ErrorOutput { one_error: None };
        proof {
            assert(sub@ =~= pb_err_body(e@));
        }
        return Some(e);
    }
    if sub.len() == 2 && sub[0] == 10 && sub[1] == 0 {
        let e = ErrorOutput { one_error: Some(OneError::UserNotFound) };
        proof {
            assert(sub@ =~= pb_err_body(e@));
        }
        return Some(e);
    }
    if sub.len() == 2 && sub[0] == 18 && sub[1] == 0 {
        let e = ErrorOutput { one_error: Some(OneError::NotEnoughMoney) };
        proof {
            assert(sub@ =~= pb_err_body(e@));
        }
        return Some(e);
    }
    if sub.len() == 2 && sub[0] == 26 && sub[1] == 0 {
        let e = ErrorOutput { one_error: Some(OneError::InvalidState) };
        proof {
            assert(sub@ =~= pb_err_body(e@));
        }
        return Some(e);
    }
    if sub[0] != 34 {
        proof {
            if premise {
                // Only the bad-parameter case can have another first byte,
                // and its first byte is exactly this tag.
                if we.one_error matches Some(OneErrorV::BadParameter(nm0)) {
                    let nm = we.one_error->0->BadParameter_0;
                    assert(sub@[0] == (seq![34u8] + varint(pb_string_field(10, nm).len())
                        + pb_string_field(10, nm))[0]);
                }
            }
        }
        return None;
    }
    let ghost wname: Seq<char> = if premise && we.one_error matches Some(
        OneErrorV::BadParameter(nm),
    ) {
        we.one_error->0->BadParameter_0
    } else {
        Seq::empty()
    };
    let ghost bp_premise = premise && we.one_error matches Some(OneErrorV::BadParameter(nm));
    proof {
        if premise {
            // A first byte of this tag rules out every other case.
            if we.one_error is None {
                assert(sub@.len() == 0);
            }
            if we.one_error matches Some(OneErrorV::UserNotFound) {
                assert(sub@[0] == 10);
            }
            if we.one_error matches Some(OneErrorV::NotEnoughMoney) {
                assert(sub@[0] == 18);
            }
            if we.one_error matches Some(OneErrorV::InvalidState) {
                assert(sub@[0] == 26);
            }
            assert(bp_premise);
        }
        if bp_premise {
            let fb = pb_string_field(10, wname);
            assert(sub@ == seq![34u8] + varint(fb.len()) + fb);
            vstd::seq_lib::lemma_concat_associative(seq![34u8], varint(fb.len()), fb);
            assert(sub@.skip(1) =~= varint(fb.len()) + fb) by {
                assert(sub@ == seq![34u8] + (varint(fb.len()) + fb));
                assert(forall|i: int|
                    0 <= i < sub@.skip(1).len() ==> #[trigger] sub@.skip(1)[i] == sub@[i + 1]
                        && sub@[i + 1] == (seq![34u8] + (varint(fb.len()) + fb))[i + 1]);
            }
            assert(fb.len() <= usize::MAX);
        }
    }
    let mut pos: usize = 1;
    let len = match read_varint_usize(sub, &mut pos) {
        Some(v) => v,
        None => {
            proof {
                if bp_premise {
                    let fb = pb_string_field(10, wname);
                    assert(exists|v2: usize, rest2: Seq<u8>|
                        sub@.skip(1) == varint(v2 as nat) + rest2) by {
                        assert(sub@.skip(1) == varint((fb.len() as usize) as nat) + fb);
                    }
                }
            }
            return None;
        },
    };
    let ghost q1 = pos as int;
    proof {
        if bp_premise {
            let fb = pb_string_field(10, wname);
            assert(sub@.subrange(1, q1) == varint(len as nat));
            assert(sub@.skip(1) =~= varint(len as nat) + sub@.skip(q1));
            lemma_varint_prefix_free(len as nat, fb.len(), sub@.skip(q1), fb);
            assert(len as int == fb.len());
            assert(sub@.skip(q1) == fb);
        }
    }
    if len > sub.len() - pos {
        return None;
    }
    let body = &sub[pos..pos + len];
    proof {
        if bp_premise {
            assert(body@ =~= sub@.skip(q1)) by {
                assert(sub@.skip(q1).len() == len as int);
            }
            assert(exists|nv: Seq<char>| body@ == pb_string_field(10, nv)) by {
                assert(body@ == pb_string_field(10, wname));
            }
        }
    }
    let name = match decode_bad_param_body(body) {
        Some(n) => n,
        None => {
            return None;
        },
    };
    pos = pos + len;
    if pos != sub.len() {
        return None;
    }
    let e = ErrorOutput { one_error: Some(OneError::BadParameter(name)) };
    proof {
        assert(sub@ =~= seq![34u8] + sub@.subrange(1, q1) + sub@.subrange(q1, pos as int));
        assert(sub@.subrange(q1, pos as int) =~= pb_string_field(10, name@));
        assert(sub@ =~= pb_err_body(e@));
    }
    Some(e)
}

/// Reads the leading balance section of the envelope: nothing when the
/// first byte is not its tag, else the tagged, length-prefixed body.
#[verifier::rlimit(100)]
fn read_ub_section(
    input: &[u8],
    pos: &mut usize,
    Ghost(premise): Ghost<bool>,
    Ghost(wo): Ghost<GenericOutputV>,
) -> (r: Option<Option<UserBalanceData>>)
    requires
        *old(pos) == 0,
        premise ==> input@ == pb_output(wo),
    ensures
        *final(pos) <= input@.len(),
        r matches Some(ub) ==> input@.subrange(0, *final(pos) as int) == (match ub {
            Some(u) => seq![10u8] + varint(pb_ub_body(u@).len()) + pb_ub_body(u@),
            None => Seq::<u8>::empty(),
        }),
        premise ==> r is Some && input@.skip(*final(pos) as int) == (match wo.error {
            None => Seq::<u8>::empty(),
            Some(e) => seq![18u8] + varint(pb_err_body(e).len()) + pb_err_body(e),
        }),
{
    let ghost ubpart: Seq<u8> = match wo.user_balance {
        None => Seq::<u8>::empty(),
        Some(u) => seq![10u8] + varint(pb_ub_body(u).len()) + pb_ub_body(u),
    };
    let ghost errpart: Seq<u8> = match wo.error {
        None => Seq::<u8>::empty(),
        Some(e) => seq![18u8] + varint(pb_err_body(e).len()) + pb_err_body(e),
    };
    proof {
        if premise {
            assert(input@ == ubpart + errpart);
            if wo.user_balance is None {
                assert(input@ =~= errpart);
                if errpart.len() > 0 {
                    assert(input@[0] == errpart[0]);
                    assert(input@[0] == 18);
                }
            } else {
                assert(input@[0] == ubpart[0]);
                assert(input@[0] == 10);
                let bd = pb_ub_body(wo.user_balance->0);
                vstd::seq_lib::lemma_concat_associative(seq![10u8], varint(bd.len()), bd);
                assert(input@.skip(1) =~= varint(bd.len()) + (bd + errpart)) by {
                    assert(input@ == (seq![10u8] + (varint(bd.len()) + bd)) + errpart);
                    vstd::seq_lib::lemma_concat_associative(
                        seq![10u8],
                        varint(bd.len()) + bd,
                        errpart,
                    );
                    vstd::seq_lib::lemma_concat_associative(varint(bd.len()), bd, errpart);
                    assert(input@ == seq![10u8] + (varint(bd.len()) + (bd + errpart)));
                    assert(forall|i: int|
                        0 <= i < input@.skip(1).len() ==> #[trigger] input@.skip(1)[i]
                            == input@[i + 1] && input@[i + 1] == (seq![10u8] + (varint(bd.len())
                            + (bd + errpart)))[i + 1]);
                }
                assert(bd.len() <= usize::MAX) by {
                    assert(input@.len() <= usize::MAX) by {
                        assert(input.len() as int == input@.len());
                    }
                    assert(ubpart.len() == 1 + varint(bd.len()).len() + bd.len());
                    assert(input@.len() == ubpart.len() + errpart.len());
                }
            }
        }
    }
    if !(input.len() > 0 && input[0] == 10) {
        proof {
            if premise && wo.user_balance is Some {
                assert(input@[0] == 10);
            }
            assert(input@.subrange(0, 0) =~= Seq::<u8>::empty());
            if premise {
                assert(input@.skip(0) =~= input@);
            }
        }
        return Some(None);
    }
    proof {
        if premise && wo.user_balance is None {
            assert(input@[0] == 18);
        }
    }
    *pos = 1;
    let len = match read_varint_usize(input, pos) {
        Some(v) => v,
        None => {
            proof {
                if premise {
                    let bd = pb_ub_body(wo.user_balance->0);
                    assert(exists|v2: usize, rest2: Seq<u8>|
                        input@.skip(1) == varint(v2 as nat) + rest2) by {
                        assert(input@.skip(1) == varint((bd.len() as usize) as nat) + (bd
                            + errpart));
                    }
                }
            }
            return None;
        },
    };
    let ghost q1 = *pos as int;
    proof {
        if premise {
            let bd = pb_ub_body(wo.user_balance->0);
            assert(input@.subrange(1, q1) == varint(len as nat));
            assert(input@.skip(1) =~= varint(len as nat) + input@.skip(q1));
            lemma_varint_prefix_free(len as nat, bd.len(), input@.skip(q1), bd + errpart);
            assert(len as int == bd.len());
            assert(input@.skip(q1) == bd + errpart);
        }
    }
    if len > input.len() - *pos {
        return None;
    }
    let body = &input[*pos..*pos + len];
    proof {
        if premise {
            let bd = pb_ub_body(wo.user_balance->0);
            assert(body@ =~= bd) by {
                assert(forall|i: int|
                    0 <= i < len as int ==> #[trigger] body@[i] == input@[q1 + i]
                        && input@.skip(q1)[i] == (bd + errpart)[i]);
            }
            assert(exists|u2: UserBalanceDataV| body@ == pb_ub_body(u2)) by {
                assert(body@ == pb_ub_body(wo.user_balance->0));
            }
        }
    }
    let u = match decode_ub_body(body) {
        Some(u) => u,
        None => {
            return None;
        },
    };
    *pos = *pos + len;
    proof {
        assert(input@.subrange(0, *pos as int) =~= seq![10u8] + input@.subrange(1, q1)
            + input@.subrange(q1, *pos as int));
        assert(input@.subrange(q1, *pos as int) =~= pb_ub_body(u@));
        if premise {
            let bd = pb_ub_body(wo.user_balance->0);
            assert(input@.skip(*pos as int) =~= errpart) by {
                assert(forall|i: int|
                    0 <= i < errpart.len() ==> #[trigger] input@.skip(*pos as int)[i]
                        == input@.skip(q1)[(*pos as int - q1) + i] && (bd + errpart)[(*pos as int
                        - q1) + i] == errpart[i]);
            }
        }
    }
    Some(Some(u))
}

/// Reads the trailing error section of the envelope.
#[verifier::rlimit(100)]
fn read_err_section(
    input: &[u8],
    pos: &mut usize,
    Ghost(premise): Ghost<bool>,
    Ghost(werr): Ghost<Option<ErrorOutputV>>,
) -> (r: Option<Option<ErrorOutput>>)
    requires
        *old(pos) <= input@.len(),
        premise ==> input@.skip(*old(pos) as int) == (match werr {
            None => Seq::<u8>::empty(),
            Some(e) => seq![18u8] + varint(pb_err_body(e).len()) + pb_err_body(e),
        }),
    ensures
        *final(pos) <= input@.len(),
        r matches Some(err) ==> *old(pos) <= *final(pos) && input@.subrange(
            *old(pos) as int,
            *final(pos) as int,
        ) == (match err {
            Some(e) => seq![18u8] + varint(pb_err_body(e@).len()) + pb_err_body(e@),
            None => Seq::<u8>::empty(),
        }),
        r matches Some(err) && err is None ==> *final(pos) == *old(pos),
        premise ==> r is Some && *final(pos) as int == input@.len(),
{
    let base = *pos;
    proof {
        if premise {
            if werr matches Some(ew0) {
                let ed = pb_err_body(werr->0);
                assert(input@[base as int] == input@.skip(base as int)[0]);
                assert(input@[base as int] == 18);
                vstd::seq_lib::lemma_concat_associative(seq![18u8], varint(ed.len()), ed);
                assert(input@.skip(base as int + 1) =~= varint(ed.len()) + ed) by {
                    assert(input@.skip(base as int) == seq![18u8] + (varint(ed.len()) + ed));
                    assert(forall|i: int|
                        0 <= i < input@.skip(base as int + 1).len() ==> #[trigger] input@.skip(
                            base as int + 1,
                        )[i] == input@.skip(base as int)[i + 1] && input@.skip(base as int)[i
                            + 1] == (seq![18u8] + (varint(ed.len()) + ed))[i + 1]);
                }
                assert(ed.len() <= usize::MAX) by {
                    assert(input@.len() <= usize::MAX) by {
                        assert(input.len() as int == input@.len());
                    }
                    assert(input@.skip(base as int).len() == 1 + varint(ed.len()).len()
                        + ed.len());
                }
            } else {
                assert(input@.skip(base as int).len() == 0);
                assert(base as int == input@.len());
            }
        }
    }
    if !(base < input.len() && input[base] == 18) {
        proof {
            assert(input@.subrange(base as int, base as int) =~= Seq::<u8>::empty());
            if premise && werr is Some {
                assert(input@[base as int] == 18);
            }
        }
        return Some(None);
    }
    *pos = base + 1;
    let len = match read_varint_usize(input, pos) {
        Some(v) => v,
        None => {
            proof {
                if premise {
                    let ed = pb_err_body(werr->0);
                    assert(exists|v2: usize, rest2: Seq<u8>|
                        input@.skip(base as int + 1) == varint(v2 as nat) + rest2) by {
                        assert(input@.skip(base as int + 1) == varint((ed.len() as usize) as nat)
                            + ed);
                    }
                }
            }
            return None;
        },
    };
    let ghost q1 = *pos as int;
    proof {
        if premise {
            let ed = pb_err_body(werr->0);
            assert(input@.subrange(base as int + 1, q1) == varint(len as nat));
            assert(input@.skip(base as int + 1) =~= varint(len as nat) + input@.skip(q1));
            lemma_varint_prefix_free(len as nat, ed.len(), input@.skip(q1), ed);
            assert(len as int == ed.len());
            assert(input@.skip(q1) == ed);
        }
    }
    if len > input.len() - *pos {
        return None;
    }
    let body = &input[*pos..*pos + len];
    proof {
        if premise {
            let ed = pb_err_body(werr->0);
            assert(body@ =~= ed) by {
                assert(forall|i: int|
                    0 <= i < len as int ==> #[trigger] body@[i] == input@[q1 + i]
                        && input@.skip(q1)[i] == ed[i]);
            }
            assert(exists|e2: ErrorOutputV| body@ == pb_err_body(e2)) by {
                assert(body@ == pb_err_body(werr->0));
            }
        }
    }
    let e = match decode_err_body(body) {
        Some(e) => e,
        None => {
            return None;
        },
    };
    *pos = *pos + len;
    proof {
        assert(input@.subrange(base as int, *pos as int) =~= seq![18u8] + input@.subrange(
            base as int + 1,
            q1,
        ) + input@.subrange(q1, *pos as int));
        assert(input@.subrange(q1, *pos as int) =~= pb_err_body(e@));
        if premise {
            assert(*pos as int == input@.len()) by {
                let ed = pb_err_body(werr->0);
                assert(input@.skip(q1).len() == ed.len());
            }
        }
    }
    Some(Some(e))
}

/// Decodes a canonical protobuf envelope. Any accepted input is exactly
/// the canonical encoding of the returned value, and every canonical
/// encoding is accepted.
#[verifier::rlimit(100)]
pub fn decode_generic_output_protobuf(input: &[u8]) -> (r: Option<GenericOutput>)
    ensures
        r matches Some(o) ==> input@ == pb_output(o@),
        (exists|o: GenericOutputV| input@ == pb_output(o)) ==> r is Some,
{
    let ghost premise = exists|o: GenericOutputV| input@ == pb_output(o);
    let ghost wo: GenericOutputV = if premise {
        choose|o: GenericOutputV| input@ == pb_output(o)
    } else {
        arbitrary()
    };
    let mut pos: usize = 0;
    let ub: Option<UserBalanceData> = match read_ub_section(
        input,
        &mut pos,
        Ghost(premise),
        Ghost(wo),
    ) {
        Some(ub) => ub,
        None => {
            return None;
        },
    };
    let ghost p1 = pos as int;
    let err: Option<ErrorOutput> = match read_err_section(
        input,
        &mut pos,
        Ghost(premise),
        Ghost(if premise {
            wo.error
        } else {
            None
        }),
    ) {
        Some(err) => err,
        None => {
            return None;
        },
    };
    if pos != input.len() {
        return None;
    }
    let o = GenericOutput { user_balance: ub, error: err };
    proof {
        assert(input@ =~= input@.subrange(0, p1) + input@.subrange(p1, pos as int));
        assert(input@ =~= pb_output(o@));
    }
    Some(o)
}

/// Encoding an envelope and decoding the bytes always succeeds, and the
/// decoded value encodes back to the same bytes: the protobuf round
/// trip, both directions.
pub fn protobuf_round_trip(o: &GenericOutput) -> (r: Option<GenericOutput>)
    ensures
        r is Some,
        r matches Some(o2) ==> pb_output(o2@) == pb_output(o@),
{
    let bytes = encode_generic_output_protobuf(o);
    let r = decode_generic_output_protobuf(bytes.as_slice());
    proof {
        assert(exists|o2: GenericOutputV| bytes@ == pb_output(o2)) by {
            assert(bytes@ == pb_output(o@));
        }
    }
    r
}

/// Decoding a canonical protobuf envelope and encoding the result gives
/// the same bytes: the byte-stability of the protobuf round trip.
pub fn protobuf_reencode(input: &[u8]) -> (r: Option<Vec<u8>>)
    ensures
        r matches Some(out) ==> out@ == input@,
{
    match decode_generic_output_protobuf(input) {
        Some(o) => Some(encode_generic_output_protobuf(&o)),
        None => None,
    }
}

} // verus!
