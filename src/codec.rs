//! Length-prefixed framing of a list of text fields.
//!
//! A field is written as the unsigned LEB128 varint of its byte length
//! followed by its raw UTF-8 bytes; a message is the plain concatenation
//! of its fields.
use vstd::arithmetic::div_mod::{lemma_add_mod_noop, lemma_mod_multiples_vanish, lemma_small_mod};
use vstd::arithmetic::power2::{lemma2_to64, lemma_pow2_adds, lemma_pow2_pos, pow2};
use vstd::prelude::*;
use vstd::utf8::{decode_utf8, encode_utf8, encode_utf8_decode_utf8, valid_utf8};

verus! {

/// The minimal varint of `v`: low 7-bit group first, high bit set on every
/// byte but the last.
pub open spec fn varint_bytes(v: nat) -> Seq<u8>
    decreases v,
{
    if v < 128 {
        seq![v as u8]
    } else {
        seq![(v % 128 + 128) as u8] + varint_bytes(v / 128)
    }
}

/// The number the 7-bit groups of `bytes` stand for, first group lowest.
pub open spec fn groups_value(bytes: Seq<u8>) -> nat
    decreases bytes.len(),
{
    if bytes.len() == 0 {
        0
    } else {
        groups_value(bytes.drop_last()) + ((bytes.last() % 128) as nat) * pow2(
            (7 * (bytes.len() - 1)) as nat,
        )
    }
}

/// How many bytes the varint at the start of `buf` takes: up to and including
/// the first byte whose high bit is clear. `None` when no such byte exists.
pub open spec fn varint_len(buf: Seq<u8>) -> Option<nat>
    decreases buf.len(),
{
    if buf.len() == 0 {
        None
    } else if buf[0] < 128 {
        Some(1)
    } else {
        match varint_len(buf.drop_first()) {
            Some(n) => Some(n + 1),
            None => None,
        }
    }
}

/// The varint at the start of `buf`, as its value (kept to 64 bits) and the
/// number of bytes it takes.
pub open spec fn decoded_varint(buf: Seq<u8>) -> Option<(u64, nat)> {
    match varint_len(buf) {
        Some(n) => Some(((groups_value(buf.take(n as int)) % pow2(64)) as u64, n)),
        None => None,
    }
}

/// The framing of a list of byte fields.
pub open spec fn frames_bytes(fields: Seq<Seq<u8>>) -> Seq<u8>
    decreases fields.len(),
{
    if fields.len() == 0 {
        Seq::empty()
    } else {
        varint_bytes(fields[0].len()) + fields[0] + frames_bytes(fields.drop_first())
    }
}

/// The UTF-8 bytes of each text field.
pub open spec fn utf8_fields(fields: Seq<Seq<char>>) -> Seq<Seq<u8>> {
    fields.map_values(|f: Seq<char>| encode_utf8(f))
}

/// The framing of a list of text fields.
pub open spec fn payload_bytes(fields: Seq<Seq<char>>) -> Seq<u8> {
    frames_bytes(utf8_fields(fields))
}

/// The byte fields that `buf` frames, or `None` when a varint is cut short
/// or a length runs past the end of `buf`.
pub open spec fn parse_frames(buf: Seq<u8>) -> Option<Seq<Seq<u8>>>
    decreases buf.len(),
{
    if buf.len() == 0 {
        Some(Seq::empty())
    } else {
        match decoded_varint(buf) {
            None => None,
            Some((len, n)) => {
                if n + len > buf.len() {
                    None
                } else {
                    match parse_frames(buf.subrange(n + len, buf.len() as int)) {
                        None => None,
                        Some(rest) => Some(
                            seq![buf.subrange(n as int, n + len)] + rest,
                        ),
                    }
                }
            },
        }
    }
}

/// The text fields that `buf` frames, or `None` when the framing is broken
/// or a field is not valid UTF-8.
pub open spec fn parsed_payload(buf: Seq<u8>) -> Option<Seq<Seq<char>>> {
    match parse_frames(buf) {
        None => None,
        Some(frames) => {
            if forall|i: int| 0 <= i < frames.len() ==> valid_utf8(#[trigger] frames[i]) {
                Some(frames.map_values(|f: Seq<u8>| decode_utf8(f)))
            } else {
                None
            }
        },
    }
}

/// The views of a list of strings.
pub open spec fn texts(v: Seq<String>) -> Seq<Seq<char>> {
    v.map_values(|s: String| s@)
}

/// Every field of `fields` has a byte length that a varint can carry.
pub open spec fn fields_fit(fields: Seq<Seq<u8>>) -> bool {
    forall|i: int| 0 <= i < fields.len() ==> #[trigger] fields[i].len() < pow2(64)
}

/// The minimal unsigned LEB128 encoding of `value`.
pub fn encode_varint(value: u64) -> (r: Vec<u8>)
    ensures
        r@ == varint_bytes(value as nat),
{
    let mut buf: Vec<u8> = Vec::new();
    let mut rest: u64 = value;
    while rest >= 128
        invariant
            buf@ + varint_bytes(rest as nat) == varint_bytes(value as nat),
        decreases rest,
    {
        let byte: u8 = (rest % 128 + 128) as u8;
        proof {
            assert(varint_bytes(rest as nat) == seq![byte] + varint_bytes((rest / 128) as nat));
            assert(buf@.push(byte) + varint_bytes((rest / 128) as nat) =~= buf@ + varint_bytes(
                rest as nat,
            ));
        }
        buf.push(byte);
        rest = rest / 128;
    }
    proof {
        assert(buf@.push(rest as u8) =~= buf@ + varint_bytes(rest as nat));
    }
    buf.push(rest as u8);
    buf
}

proof fn lemma_pow2_le(a: nat, b: nat)
    requires
        a <= b,
    ensures
        pow2(a) <= pow2(b),
{
    if a < b {
        vstd::arithmetic::power2::lemma_pow2_strictly_increases(a, b);
    }
}

proof fn lemma_groups_value_push(bytes: Seq<u8>, i: int)
    requires
        0 <= i < bytes.len(),
    ensures
        groups_value(bytes.take(i + 1)) == groups_value(bytes.take(i)) + ((bytes[i] % 128) as nat)
            * pow2((7 * i) as nat),
{
    assert(bytes.take(i + 1).drop_last() =~= bytes.take(i));
}

proof fn lemma_varint_len_at(buf: Seq<u8>, i: int)
    requires
        0 <= i < buf.len(),
        buf[i] < 128,
        forall|j: int| 0 <= j < i ==> buf[j] >= 128,
    ensures
        varint_len(buf) == Some((i + 1) as nat),
    decreases i,
{
    if i > 0 {
        lemma_varint_len_at(buf.drop_first(), i - 1);
    }
}

proof fn lemma_varint_len_none(buf: Seq<u8>)
    requires
        forall|j: int| 0 <= j < buf.len() ==> buf[j] >= 128,
    ensures
        varint_len(buf) is None,
    decreases buf.len(),
{
    if buf.len() > 0 {
        lemma_varint_len_none(buf.drop_first());
    }
}

/// Reads the varint at the start of `buf`: its value and how many bytes it
/// took, or `None` when `buf` ends before a byte with the high bit clear.
/// Groups beyond the 64th bit are dropped.
pub fn decode_varint(buf: &[u8]) -> (r: Option<(u64, usize)>)
    ensures
        match r {
            Some((v, n)) => decoded_varint(buf@) == Some((v, n as nat)),
            None => decoded_varint(buf@) is None,
        },
{
    let mut value: u64 = 0;
    let mut mult: u64 = 1;
    let mut i: usize = 0;
    proof {
        lemma2_to64();
        assert(buf@.take(0) =~= Seq::<u8>::empty());
    }
    while i < buf.len()
        invariant
            0 <= i <= buf.len(),
            forall|j: int| 0 <= j < i ==> buf@[j] >= 128,
            value == groups_value(buf@.take(i as int)) % pow2(64),
            i < 10 ==> mult == pow2((7 * i) as nat),
            pow2(64) == 0x1_0000_0000_0000_0000,
        decreases buf.len() - i,
    {
        let byte = buf[i];
        let low: u64 = (byte % 128) as u64;
        let ghost old_value = groups_value(buf@.take(i as int));
        let ghost term: nat = (low as nat) * pow2((7 * i) as nat);
        proof {
            lemma_groups_value_push(buf@, i as int);
            lemma_pow2_pos((7 * i) as nat);
        }
        if i < 10 {
            proof {
                lemma_pow2_le((7 * i) as nat, 63);
                vstd::arithmetic::power2::lemma2_to64_rest();
                assert(low * mult <= 127 * 0x8000_0000_0000_0000) by (nonlinear_arith)
                    requires
                        low < 128,
                        mult <= 0x8000_0000_0000_0000,
                ;
            }
            let t: u128 = (low as u128) * (mult as u128);
            proof {
                lemma_add_mod_noop(old_value as int, term as int, pow2(64) as int);
                lemma_small_mod(value as nat, pow2(64));
            }
            value = ((value as u128 + t % 0x1_0000_0000_0000_0000) % 0x1_0000_0000_0000_0000) as u64;
            proof {
                assert(value == (old_value + term) % pow2(64)) by {
                    lemma_add_mod_noop(old_value as int, term as int, pow2(64) as int);
                    lemma_small_mod((term % pow2(64)) as nat, pow2(64));
                }
            }
            if i < 9 {
                proof {
                    lemma_pow2_adds((7 * i) as nat, 7);
                    assert(pow2(7) == 128) by {
                        lemma2_to64();
                    }
                    assert(mult * 128 <= 0x8000_0000_0000_0000) by {
                        lemma_pow2_le((7 * i + 7) as nat, 63);
                        vstd::arithmetic::power2::lemma2_to64_rest();
                    }
                }
                mult = mult * 128;
            }
        } else {
            proof {
                let e = (7 * i) as nat;
                lemma_pow2_adds((e - 64) as nat, 64);
                assert(term == pow2(64) * ((low as nat) * pow2((e - 64) as nat))) by (
                nonlinear_arith)
                    requires
                        term == low * pow2(e),
                        pow2(e) == pow2((e - 64) as nat) * pow2(64),
                ;
                lemma_mod_multiples_vanish(
                    ((low as nat) * pow2((e - 64) as nat)) as int,
                    old_value as int,
                    pow2(64) as int,
                );
            }
        }
        if byte < 128 {
            proof {
                lemma_varint_len_at(buf@, i as int);
            }
            return Some((value, i + 1));
        }
        i = i + 1;
    }
    proof {
        lemma_varint_len_none(buf@);
    }
    None
}

/// The views of a list of byte vectors.
pub open spec fn byte_views(v: Seq<Vec<u8>>) -> Seq<Seq<u8>> {
    v.map_values(|b: Vec<u8>| b@)
}

proof fn lemma_varint_len_bound(buf: Seq<u8>)
    requires
        varint_len(buf) is Some,
    ensures
        1 <= varint_len(buf)->0 <= buf.len(),
    decreases buf.len(),
{
    if buf.len() > 0 && buf[0] >= 128 {
        lemma_varint_len_bound(buf.drop_first());
    }
}

proof fn lemma_groups_value_cons(b: u8, s: Seq<u8>)
    ensures
        groups_value(seq![b] + s) == (b % 128) as nat + 128 * groups_value(s),
    decreases s.len(),
{
    let whole = seq![b] + s;
    lemma2_to64();
    assert(whole.len() == s.len() + 1);
    if s.len() == 0 {
        assert(whole.drop_last() =~= Seq::<u8>::empty());
        assert(whole.last() == b);
        assert(groups_value(whole) == groups_value(whole.drop_last()) + ((whole.last() % 128) as nat)
            * pow2(0));
        assert(groups_value(s) == 0);
    } else {
        assert(whole.last() == s.last());
        assert(whole.drop_last() =~= seq![b] + s.drop_last());
        lemma_groups_value_cons(b, s.drop_last());
        let e = (7 * (s.len() - 1)) as nat;
        lemma_pow2_adds(e, 7);
        lemma2_to64();
        assert(pow2((7 * s.len()) as nat) == 128 * pow2(e));
        assert(groups_value(whole) == groups_value(whole.drop_last()) + ((s.last() % 128) as nat)
            * pow2((7 * s.len()) as nat));
        assert(groups_value(s) == groups_value(s.drop_last()) + ((s.last() % 128) as nat) * pow2(e));
        let g = groups_value(s.drop_last());
        let c = (s.last() % 128) as nat;
        assert(128 * groups_value(s) == 128 * g + c * (128 * pow2(e))) by (nonlinear_arith)
            requires
                groups_value(s) == g + c * pow2(e),
        ;
    }
}

proof fn lemma_varint_bytes_value(v: nat)
    ensures
        groups_value(varint_bytes(v)) == v,
    decreases v,
{
    let enc = varint_bytes(v);
    if v < 128 {
        lemma2_to64();
        assert(enc.drop_last() =~= Seq::<u8>::empty());
        assert(enc.last() == v);
        assert(groups_value(enc) == groups_value(enc.drop_last()) + ((enc.last() % 128) as nat)
            * pow2(0));
    } else {
        let tail = varint_bytes(v / 128);
        vstd::arithmetic::div_mod::lemma_fundamental_div_mod(v as int, 128);
        let byte = (v % 128 + 128) as u8;
        lemma_varint_bytes_value(v / 128);
        lemma_groups_value_cons(byte, tail);
        assert(enc == seq![byte] + tail);
        assert(byte % 128 == v % 128);
        assert(groups_value(enc) == v % 128 + 128 * (v / 128));
    }
}

proof fn lemma_varint_bytes_shape(v: nat, rest: Seq<u8>)
    ensures
        varint_len(varint_bytes(v) + rest) == Some(varint_bytes(v).len()),
        (varint_bytes(v) + rest).take(varint_bytes(v).len() as int) == varint_bytes(v),
    decreases v,
{
    let enc = varint_bytes(v);
    assert((enc + rest).take(enc.len() as int) =~= enc);
    if v >= 128 {
        let tail = varint_bytes(v / 128);
        lemma_varint_bytes_shape(v / 128, rest);
        assert((enc + rest).drop_first() =~= tail + rest);
    }
}

/// Decoding the varint of `v` gives back `v` and the whole encoding's length.
pub proof fn lemma_varint_round_trip(v: u64)
    ensures
        decoded_varint(varint_bytes(v as nat)) == Some((v, varint_bytes(v as nat).len())),
{
    lemma2_to64();
    lemma_varint_prefix(v as nat, Seq::empty());
    assert(varint_bytes(v as nat) + Seq::<u8>::empty() =~= varint_bytes(v as nat));
}

proof fn lemma_varint_prefix(v: nat, rest: Seq<u8>)
    requires
        v < pow2(64),
    ensures
        decoded_varint(varint_bytes(v) + rest) == Some((v as u64, varint_bytes(v).len())),
{
    lemma_varint_bytes_shape(v, rest);
    lemma_varint_bytes_value(v);
    lemma_small_mod(v, pow2(64));
}

proof fn lemma_frames_concat(a: Seq<Seq<u8>>, b: Seq<Seq<u8>>)
    ensures
        frames_bytes(a + b) == frames_bytes(a) + frames_bytes(b),
    decreases a.len(),
{
    if a.len() == 0 {
        assert(a + b =~= b);
        assert(frames_bytes(a) + frames_bytes(b) =~= frames_bytes(b));
    } else {
        assert((a + b).drop_first() =~= a.drop_first() + b);
        lemma_frames_concat(a.drop_first(), b);
        assert(frames_bytes(a + b) =~= frames_bytes(a) + frames_bytes(b));
    }
}

proof fn lemma_frames_push(a: Seq<Seq<u8>>, f: Seq<u8>)
    ensures
        frames_bytes(a.push(f)) == frames_bytes(a) + varint_bytes(f.len()) + f,
{
    lemma_frames_concat(a, seq![f]);
    assert(a.push(f) =~= a + seq![f]);
    let one = seq![f];
    assert(one[0] == f);
    assert(one.drop_first() =~= Seq::<Seq<u8>>::empty());
    assert(frames_bytes(one.drop_first()) == Seq::<u8>::empty());
    assert(frames_bytes(one) =~= varint_bytes(f.len()) + f);
    assert(frames_bytes(a) + frames_bytes(seq![f]) =~= frames_bytes(a) + varint_bytes(f.len())
        + f);
}

/// Parsing the framing of byte fields gives back the fields.
pub proof fn lemma_frames_round_trip(fields: Seq<Seq<u8>>)
    requires
        fields_fit(fields),
    ensures
        parse_frames(frames_bytes(fields)) == Some(fields),
    decreases fields.len(),
{
    let buf = frames_bytes(fields);
    if fields.len() == 0 {
    } else {
        let f = fields[0];
        let rest = fields.drop_first();
        let enc = varint_bytes(f.len());
        assert(fields_fit(rest));
        lemma_frames_round_trip(rest);
        assert(buf =~= enc + (f + frames_bytes(rest)));
        assert(f.len() < pow2(64));
        lemma2_to64();
        lemma_varint_prefix(f.len(), f + frames_bytes(rest));
        lemma_varint_len_bound(buf);
        let n = enc.len();
        assert(buf.len() == n + f.len() + frames_bytes(rest).len());
        assert(buf.subrange((n + f.len()) as int, buf.len() as int) =~= frames_bytes(rest));
        assert(buf.subrange(n as int, (n + f.len()) as int) =~= f);
        assert(decoded_varint(buf) == Some((f.len() as u64, n)));
        assert(seq![f] + rest =~= fields);
    }
}

/// Parsing the framing of a list of text fields gives back the list, for
/// every list whose fields have byte lengths that fit in 64 bits.
pub proof fn lemma_payload_round_trip(fields: Seq<Seq<char>>)
    requires
        forall|i: int| 0 <= i < fields.len() ==> #[trigger] encode_utf8(fields[i]).len() < pow2(64),
    ensures
        parsed_payload(payload_bytes(fields)) == Some(fields),
{
    let frames = utf8_fields(fields);
    assert(fields_fit(frames));
    lemma_frames_round_trip(frames);
    assert forall|i: int| 0 <= i < frames.len() implies valid_utf8(#[trigger] frames[i]) by {
        vstd::utf8::encode_utf8_valid_utf8(fields[i]);
    }
    assert forall|i: int| 0 <= i < fields.len() implies decode_utf8(frames[i]) == fields[i] by {
        encode_utf8_decode_utf8(fields[i]);
    }
    assert(frames.map_values(|f: Seq<u8>| decode_utf8(f)) =~= fields);
}

/// Relies on `String::from_utf8`: it accepts exactly the byte sequences that
/// are well-formed UTF-8, and then holds the text that they encode.
#[verifier::external_body]
fn utf8_text(bytes: Vec<u8>) -> (r: Option<String>)
    ensures
        r is Some <==> valid_utf8(bytes@),
        r matches Some(s) ==> s@ == decode_utf8(bytes@),
{
    String::from_utf8(bytes).ok()
}

/// Frames a list of byte fields.
pub fn encode_frames(fields: &Vec<Vec<u8>>) -> (r: Vec<u8>)
    ensures
        r@ == frames_bytes(byte_views(fields@)),
{
    let mut buf: Vec<u8> = Vec::new();
    let mut i: usize = 0;
    while i < fields.len()
        invariant
            i <= fields.len(),
            buf@ == frames_bytes(byte_views(fields@.take(i as int))),
        decreases fields.len() - i,
    {
        let field = &fields[i];
        let mut head = encode_varint(field.len() as u64);
        let mut body = field.clone();
        proof {
            assert(byte_views(fields@.take(i + 1)) =~= byte_views(fields@.take(i as int)).push(
                field@,
            ));
            lemma_frames_push(byte_views(fields@.take(i as int)), field@);
        }
        buf.append(&mut head);
        buf.append(&mut body);
        i = i + 1;
    }
    assert(fields@.take(i as int) =~= fields@);
    buf
}

/// Frames a list of text fields.
pub fn encode_payload(vals: &[String]) -> (r: Vec<u8>)
    ensures
        r@ == payload_bytes(texts(vals@)),
{
    let mut buf: Vec<u8> = Vec::new();
    let mut i: usize = 0;
    while i < vals.len()
        invariant
            i <= vals.len(),
            buf@ == payload_bytes(texts(vals@.take(i as int))),
        decreases vals.len() - i,
    {
        let text = vals[i].as_str();
        let mut body = vstd::slice::slice_to_vec(text.as_bytes());
        let mut head = encode_varint(body.len() as u64);
        proof {
            assert(utf8_fields(texts(vals@.take(i + 1))) =~= utf8_fields(
                texts(vals@.take(i as int)),
            ).push(body@));
            lemma_frames_push(utf8_fields(texts(vals@.take(i as int))), body@);
        }
        buf.append(&mut head);
        buf.append(&mut body);
        i = i + 1;
    }
    assert(vals@.take(i as int) =~= vals@);
    buf
}

/// Splits a framed message into its text fields.
pub fn parse_payload(buf: &[u8]) -> (r: Option<Vec<String>>)
    ensures
        match r {
            Some(v) => parsed_payload(buf@) == Some(texts(v@)),
            None => parsed_payload(buf@) is None,
        },
{
    let mut vals: Vec<String> = Vec::new();
    let mut cursor: usize = 0;
    let ghost mut done: Seq<Seq<u8>> = Seq::empty();
    assert(buf@.subrange(0, buf@.len() as int) =~= buf@);
    while cursor < buf.len()
        invariant
            cursor <= buf.len(),
            done.len() == vals.len(),
            forall|k: int|
                0 <= k < done.len() ==> valid_utf8(#[trigger] done[k]) && vals@[k]@ == decode_utf8(
                    done[k],
                ),
            parse_frames(buf@) == match parse_frames(buf@.subrange(cursor as int, buf@.len() as int)) {
                Some(rest) => Some(done + rest),
                None => None::<Seq<Seq<u8>>>,
            },
        decreases buf.len() - cursor,
    {
        let ghost suffix = buf@.subrange(cursor as int, buf@.len() as int);
        let rest = vstd::slice::slice_subrange(buf, cursor, buf.len());
        match decode_varint(rest) {
            None => {
                return None;
            },
            Some((len, n)) => {
                proof {
                    lemma_varint_len_bound(suffix);
                }
                let start = cursor + n;
                if (len as u128) > ((buf.len() - start) as u128) {
                    return None;
                }
                let end = start + len as usize;
                let field = vstd::slice::slice_to_vec(vstd::slice::slice_subrange(buf, start, end));
                proof {
                    assert(suffix.subrange(n + len, suffix.len() as int) =~= buf@.subrange(
                        end as int,
                        buf@.len() as int,
                    ));
                    assert(suffix.subrange(n as int, n + len) =~= field@);
                }
                match utf8_text(field) {
                    None => {
                        proof {
                            if let Some(all) = parse_frames(buf@) {
                                assert(all[done.len() as int] == field@);
                            }
                        }
                        return None;
                    },
                    Some(text) => {
                        proof {
                            assert(done + (seq![field@] + parse_frames(
                                buf@.subrange(end as int, buf@.len() as int),
                            ).unwrap_or(Seq::empty())) =~= done.push(field@) + parse_frames(
                                buf@.subrange(end as int, buf@.len() as int),
                            ).unwrap_or(Seq::empty()));
                            done = done.push(field@);
                        }
                        vals.push(text);
                        cursor = end;
                    },
                }
            },
        }
    }
    proof {
        assert(buf@.subrange(cursor as int, buf@.len() as int) =~= Seq::<u8>::empty());
        assert(done + Seq::<Seq<u8>>::empty() =~= done);
        assert(done.map_values(|f: Seq<u8>| decode_utf8(f)) =~= texts(vals@));
    }
    Some(vals)
}

} // verus!
