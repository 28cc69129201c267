//! The protobuf wire format, as far as the server's messages use it: varints,
//! field keys, length-delimited fields, and the skipping of unknown fields.

use vstd::prelude::*;

verus! {

/// The LEB128 bytes of a natural number: seven bits per byte, least
/// significant group first, the high bit set on every byte but the last.
pub open spec fn varint_bytes(v: nat) -> Seq<u8>
    decreases v,
{
    if v < 128 {
        seq![v as u8]
    } else {
        seq![(v % 128 + 128) as u8] + varint_bytes(v / 128)
    }
}

/// The number that the LEB128 bytes at the start of `s` denote, and how many
/// bytes they take, reading at most `k` bytes.
pub open spec fn varint_value(s: Seq<u8>, k: nat) -> Option<(nat, nat)>
    decreases k,
{
    if k == 0 || s.len() == 0 {
        None
    } else if s[0] < 128 {
        Some((s[0] as nat, 1nat))
    } else {
        match varint_value(s.drop_first(), (k - 1) as nat) {
            Some((v, n)) => Some(((s[0] - 128) as nat + 128 * v, n + 1)),
            None => None,
        }
    }
}

/// A varint as protobuf decoders read it: at most ten bytes, and a value
/// that fits in 64 bits.
pub open spec fn read_varint_spec(s: Seq<u8>) -> Option<(u64, nat)> {
    match varint_value(s, 10) {
        Some((v, n)) => if v <= u64::MAX { Some((v as u64, n)) } else { None },
        None => None,
    }
}

/// The value of a field, by wire type.
pub enum WireValue {
    Varint(u64),
    Fixed,
    Bytes(Seq<u8>),
    Group,
}

/// One field of an encoded message.
pub struct WireField {
    pub tag: u64,
    pub wire_type: u64,
    pub value: WireValue,
}

/// What prost's `skip_field` leaves of `rest` (as a length) when it skips a
/// group field with the given tag whose key has already been read.
pub uninterp spec fn group_skip_rest(tag: u32, rest: Seq<u8>) -> Option<usize>;

/// Skips a group field with prost's `skip_field`, whose key, with the given
/// tag, has already been read from `rest`. Trusted: gives back how many bytes
/// of `rest` are left after the group, or `None` where prost reports an
/// error; it states, as prost's source shows, that skipping only consumes.
#[verifier::external_body]
fn skip_group(tag: u32, rest: &[u8]) -> (r: Option<usize>)
    ensures
        r == group_skip_rest(tag, rest@),
        r matches Some(k) ==> k <= rest@.len(),
{
    let mut b: &[u8] = rest;
    match prost::encoding::skip_field(
        prost::encoding::WireType::StartGroup,
        tag,
        &mut b,
        prost::encoding::DecodeContext::default(),
    ) {
        Ok(()) => Some(b.len()),
        Err(_) => None,
    }
}

/// The field at the start of `s`, and the number of bytes it takes.
pub open spec fn field_at(s: Seq<u8>) -> Option<(WireField, nat)> {
    match read_varint_spec(s) {
        None => None,
        Some((key, n)) => {
            let wt = key % 8;
            let tag = key / 8;
            let rest = s.skip(n as int);
            if key > u32::MAX || wt > 5 || tag == 0 {
                None
            } else if wt == 0 {
                match read_varint_spec(rest) {
                    Some((v, m)) => Some((WireField { tag, wire_type: wt, value: WireValue::Varint(v) }, n + m)),
                    None => None,
                }
            } else if wt == 1 {
                if rest.len() >= 8 {
                    Some((WireField { tag, wire_type: wt, value: WireValue::Fixed }, n + 8))
                } else {
                    None
                }
            } else if wt == 2 {
                match read_varint_spec(rest) {
                    Some((l, m)) => if l <= rest.len() - m {
                        Some((WireField { tag, wire_type: wt, value: WireValue::Bytes(rest.subrange(m as int, m + l)) }, (n + m + l) as nat))
                    } else {
                        None
                    },
                    None => None,
                }
            } else if wt == 5 {
                if rest.len() >= 4 {
                    Some((WireField { tag, wire_type: wt, value: WireValue::Fixed }, n + 4))
                } else {
                    None
                }
            } else if wt == 3 {
                match group_skip_rest(tag as u32, rest) {
                    Some(r) => if r <= rest.len() {
                        Some((WireField { tag, wire_type: wt, value: WireValue::Group }, (s.len() - r) as nat))
                    } else {
                        None
                    },
                    None => None,
                }
            } else {
                None
            }
        },
    }
}

/// Folds `step` over the fields of `s`, from `st`; `None` when a field does
/// not parse or `step` refuses it.
pub open spec fn decode_fields<S>(step: spec_fn(S, WireField) -> Option<S>, st: S, s: Seq<u8>) -> Option<S>
    decreases s.len(),
{
    if s.len() == 0 {
        Some(st)
    } else {
        match field_at(s) {
            None => None,
            Some((f, n)) => if 0 < n <= s.len() {
                match step(st, f) {
                    Some(st2) => decode_fields(step, st2, s.skip(n as int)),
                    None => None,
                }
            } else {
                None
            },
        }
    }
}

/// The bytes of a field key.
pub open spec fn key_bytes(tag: nat, wire_type: nat) -> Seq<u8> {
    varint_bytes(tag * 8 + wire_type)
}

/// A varint field: its key, then the value.
pub open spec fn varint_field(tag: nat, v: u64) -> Seq<u8> {
    key_bytes(tag, 0) + varint_bytes(v as nat)
}

/// A length-delimited field: its key, the length, then the bytes.
pub open spec fn delimited_field(tag: nat, b: Seq<u8>) -> Seq<u8> {
    key_bytes(tag, 2) + varint_bytes(b.len()) + b
}

/// `128` to the power `k`.
pub open spec fn pow128(k: nat) -> nat
    decreases k,
{
    if k == 0 { 1 } else { 128 * pow128((k - 1) as nat) }
}

proof fn lemma_pow128_10()
    ensures
        pow128(10) == 0x400000000000000000nat,
        pow128(10) > u64::MAX,
{
    reveal_with_fuel(pow128, 11);
}

/// Reads the LEB128 bytes of `buf` from `pos`, at most `k` of them.
fn read_varint_rec(buf: &[u8], pos: usize, k: u64) -> (r: Option<(u128, usize)>)
    requires
        pos <= buf@.len(),
        k <= 10,
    ensures
        match (r, varint_value(buf@.skip(pos as int), k as nat)) {
            (Some((v, n)), Some((sv, sn))) => v == sv && n == sn && v < pow128(n as nat) && n <= k,
            (None, None) => true,
            _ => false,
        },
    decreases k,
{
    if k == 0 || pos >= buf.len() {
        return None;
    }
    let b = buf[pos];
    let ghost s = buf@.skip(pos as int);
    assert(s[0] == b);
    if b < 128 {
        assert(pow128(1) == 128 * pow128(0));
        return Some((b as u128, 1));
    }
    let r = read_varint_rec(buf, pos + 1, k - 1);
    proof {
        assert(s.drop_first() =~= buf@.skip(pos + 1));
    }
    match r {
        Some((v, n)) => {
            proof {
                lemma_pow128_le(n as nat, 9);
                lemma_pow128_10();
                assert(pow128((n + 1) as nat) == 128 * pow128(n as nat));
            }
            Some(((b - 128) as u128 + 128 * v, n + 1))
        },
        None => None,
    }
}

proof fn lemma_pow128_le(a: nat, b: nat)
    requires
        a <= b,
    ensures
        pow128(a) <= pow128(b),
        pow128(a) >= 1,
    decreases b,
{
    if a < b {
        lemma_pow128_le(a, (b - 1) as nat);
    } else if a > 0 {
        lemma_pow128_le((a - 1) as nat, (a - 1) as nat);
    }
}

/// Reads a varint at `pos` as protobuf decoders do, giving the value and the
/// number of bytes it takes.
pub fn read_varint(buf: &[u8], pos: usize) -> (r: Option<(u64, usize)>)
    requires
        pos <= buf@.len(),
    ensures
        match (r, read_varint_spec(buf@.skip(pos as int))) {
            (Some((v, n)), Some((sv, sn))) => v == sv && n == sn,
            (None, None) => true,
            _ => false,
        },
{
    match read_varint_rec(buf, pos, 10) {
        Some((v, n)) => {
            if v <= 0xffff_ffff_ffff_ffff {
                Some((v as u64, n))
            } else {
                None
            }
        },
        None => None,
    }
}

/// Appends the LEB128 bytes of `v`.
pub fn push_varint(out: &mut Vec<u8>, v: u64)
    ensures
        final(out)@ == old(out)@ + varint_bytes(v as nat),
{
    let mut m = v;
    while m >= 128
        invariant
            old(out)@ + varint_bytes(v as nat) == out@ + varint_bytes(m as nat),
        decreases m,
    {
        let ghost before = out@;
        out.push((m % 128 + 128) as u8);
        proof {
            assert(varint_bytes(m as nat) =~= seq![(m % 128 + 128) as u8] + varint_bytes((m / 128) as nat));
            assert(before + varint_bytes(m as nat) =~= out@ + varint_bytes((m / 128) as nat));
        }
        m = m / 128;
    }
    let ghost before = out@;
    out.push(m as u8);
    proof {
        assert(out@ =~= before + varint_bytes(m as nat));
    }
}

/// A field's value as read from a buffer: a number, or the range of the
/// buffer that a length-delimited field holds.
pub enum FieldData {
    Varint(u64),
    Fixed,
    Bytes(usize, usize),
    Group,
}

/// `d`, read from `buf`, is the value `v`.
pub open spec fn field_data_matches(d: FieldData, v: WireValue, buf: Seq<u8>) -> bool {
    match (d, v) {
        (FieldData::Varint(a), WireValue::Varint(b)) => a == b,
        (FieldData::Fixed, WireValue::Fixed) => true,
        (FieldData::Bytes(st, en), WireValue::Bytes(b)) => st <= en <= buf.len() && buf.subrange(st as int, en as int) == b,
        (FieldData::Group, WireValue::Group) => true,
        _ => false,
    }
}

/// Reads the field at `pos`: its tag, its wire type, its value and the number
/// of bytes it takes.
pub fn read_field(buf: &[u8], pos: usize) -> (r: Option<(u64, u64, FieldData, usize)>)
    requires
        pos <= buf@.len(),
    ensures
        match (r, field_at(buf@.skip(pos as int))) {
            (Some((t, w, d, n)), Some((f, sn))) => t == f.tag && w == f.wire_type
                && field_data_matches(d, f.value, buf@) && n == sn,
            (None, None) => true,
            _ => false,
        },
{
    let ghost s = buf@.skip(pos as int);
    let (key, n) = match read_varint(buf, pos) {
        Some(x) => x,
        None => return None,
    };
    let wt = key % 8;
    let tag = key / 8;
    if key > 0xffff_ffff || wt > 5 || tag == 0 {
        return None;
    }
    proof {
        lemma_varint_value_len(s, 10);
        assert(varint_value(s, 10) is Some);
        assert(n <= s.len());
        assert(s.len() == buf@.len() - pos);
        assert(buf@.len() == buf.len());
    }
    let at = pos + n;
    proof {
        assert(buf@.skip(at as int) =~= s.skip(n as int));
    }
    if wt == 0 {
        match read_varint(buf, at) {
            Some((v, m)) => {
                proof {
                    lemma_varint_value_len(buf@.skip(at as int), 10);
                }
                Some((tag, wt, FieldData::Varint(v), n + m))
            },
            None => None,
        }
    } else if wt == 1 {
        if buf.len() - at >= 8 {
            Some((tag, wt, FieldData::Fixed, n + 8))
        } else {
            None
        }
    } else if wt == 2 {
        match read_varint(buf, at) {
            Some((l, m)) => {
                proof {
                    lemma_varint_value_len(buf@.skip(at as int), 10);
                }
                if l <= (buf.len() - at - m) as u64 {
                    let st = at + m;
                    let en = st + l as usize;
                    proof {
                        assert(buf@.subrange(st as int, en as int) =~= s.skip(n as int).subrange(m as int, m + l));
                    }
                    Some((tag, wt, FieldData::Bytes(st, en), n + m + l as usize))
                } else {
                    None
                }
            },
            None => None,
        }
    } else if wt == 5 {
        if buf.len() - at >= 4 {
            Some((tag, wt, FieldData::Fixed, n + 4))
        } else {
            None
        }
    } else if wt == 3 {
        let rest = vstd::slice::slice_subrange(buf, at, buf.len());
        proof {
            assert(rest@ =~= s.skip(n as int));
        }
        match skip_group(tag as u32, rest) {
            Some(r) => Some((tag, wt, FieldData::Group, (buf.len() - pos) - r)),
            None => None,
        }
    } else {
        None
    }
}

proof fn lemma_varint_value_len(s: Seq<u8>, k: nat)
    ensures
        varint_value(s, k) matches Some((v, n)) ==> 1 <= n <= s.len() && n <= k,
    decreases k,
{
    if k > 0 && s.len() > 0 && s[0] >= 128 {
        lemma_varint_value_len(s.drop_first(), (k - 1) as nat);
    }
}

/// The fields of a message whose field 1 is an `int32` and whose fields 2
/// and 3, when the message has them, are length-delimited: the last value of
/// field 1, and every value of fields 2 and 3 in order.
pub struct RawFields {
    pub message_type: i32,
    pub second: Seq<Seq<u8>>,
    pub third: Seq<Seq<u8>>,
}

pub open spec fn empty_raw() -> RawFields {
    RawFields { message_type: 0, second: Seq::empty(), third: Seq::empty() }
}

/// Takes in one field of a message that knows the fields `1..=known`; other
/// fields are skipped. A known field of the wrong wire type is refused.
pub open spec fn raw_step(known: u64) -> spec_fn(RawFields, WireField) -> Option<RawFields> {
    |st: RawFields, f: WireField|
        if f.tag == 1 && known >= 1 {
            match f.value {
                WireValue::Varint(v) => Some(RawFields { message_type: v as i32, ..st }),
                _ => None,
            }
        } else if f.tag == 2 && known >= 2 {
            match f.value {
                WireValue::Bytes(b) => Some(RawFields { second: st.second.push(b), ..st }),
                _ => None,
            }
        } else if f.tag == 3 && known >= 3 {
            match f.value {
                WireValue::Bytes(b) => Some(RawFields { third: st.third.push(b), ..st }),
                _ => None,
            }
        } else {
            Some(st)
        }
}

/// The fields of the message encoded in `s`, or `None` when `s` is not one.
pub open spec fn decode_raw_spec(known: u64, s: Seq<u8>) -> Option<RawFields> {
    decode_fields(raw_step(known), empty_raw(), s)
}

/// The parts of `buf` that a list of ranges picks.
pub open spec fn ranges_view(r: Seq<(usize, usize)>, buf: Seq<u8>) -> Seq<Seq<u8>> {
    r.map_values(|p: (usize, usize)| buf.subrange(p.0 as int, p.1 as int))
}

pub open spec fn ranges_ok(r: Seq<(usize, usize)>, len: nat) -> bool {
    forall|i: int| 0 <= i < r.len() ==> #[trigger] r[i].0 <= r[i].1 && r[i].1 <= len
}

/// The fields of a decoded message, as ranges of its buffer.
pub struct RawMessage {
    pub message_type: i32,
    pub second: Vec<(usize, usize)>,
    pub third: Vec<(usize, usize)>,
}

impl RawMessage {
    pub open spec fn matches(&self, v: RawFields, buf: Seq<u8>) -> bool {
        &&& self.message_type == v.message_type
        &&& ranges_ok(self.second@, buf.len())
        &&& ranges_ok(self.third@, buf.len())
        &&& ranges_view(self.second@, buf) == v.second
        &&& ranges_view(self.third@, buf) == v.third
    }
}

/// Decodes the fields of a message that knows the fields `1..=known`.
pub fn decode_raw(buf: &[u8], known: u64) -> (r: Option<RawMessage>)
    ensures
        match (r, decode_raw_spec(known, buf@)) {
            (Some(m), Some(v)) => m.matches(v, buf@),
            (None, None) => true,
            _ => false,
        },
{
    let mut m = RawMessage { message_type: 0, second: Vec::new(), third: Vec::new() };
    let mut pos: usize = 0;
    proof {
        assert(buf@.skip(0) =~= buf@);
        assert(ranges_view(m.second@, buf@) =~= Seq::<Seq<u8>>::empty());
        assert(ranges_view(m.third@, buf@) =~= Seq::<Seq<u8>>::empty());
    }
    while pos < buf.len()
        invariant
            pos <= buf@.len(),
            ranges_ok(m.second@, buf@.len()),
            ranges_ok(m.third@, buf@.len()),
            decode_raw_spec(known, buf@) == decode_fields(
                raw_step(known),
                RawFields {
                    message_type: m.message_type,
                    second: ranges_view(m.second@, buf@),
                    third: ranges_view(m.third@, buf@),
                },
                buf@.skip(pos as int),
            ),
        decreases buf@.len() - pos,
    {
        let ghost cur = RawFields {
            message_type: m.message_type,
            second: ranges_view(m.second@, buf@),
            third: ranges_view(m.third@, buf@),
        };
        let ghost s = buf@.skip(pos as int);
        let (tag, _wt, d, n) = match read_field(buf, pos) {
            Some(x) => x,
            None => return None,
        };
        if n == 0 || n > buf.len() - pos {
            return None;
        }
        proof {
            assert(buf@.skip(pos + n) =~= s.skip(n as int));
        }
        if tag == 1 && known >= 1 {
            match d {
                FieldData::Varint(v) => {
                    m.message_type = v as i32;
                },
                _ => return None,
            }
        } else if tag == 2 && known >= 2 {
            match d {
                FieldData::Bytes(st, en) => {
                    let ghost old_r = m.second@;
                    m.second.push((st, en));
                    proof {
                        assert(ranges_view(m.second@, buf@) =~= ranges_view(old_r, buf@).push(buf@.subrange(st as int, en as int)));
                    }
                },
                _ => return None,
            }
        } else if tag == 3 && known >= 3 {
            match d {
                FieldData::Bytes(st, en) => {
                    let ghost old_r = m.third@;
                    m.third.push((st, en));
                    proof {
                        assert(ranges_view(m.third@, buf@) =~= ranges_view(old_r, buf@).push(buf@.subrange(st as int, en as int)));
                    }
                },
                _ => return None,
            }
        }
        pos = pos + n;
    }
    proof {
        assert(buf@.skip(pos as int) =~= Seq::<u8>::empty());
    }
    Some(m)
}

/// An `int32` field as proto3 writes it: nothing for zero, else the key and
/// the value widened to 64 bits.
pub open spec fn int32_field(tag: nat, v: i32) -> Seq<u8> {
    if v == 0 {
        Seq::empty()
    } else {
        varint_field(tag, v as u64)
    }
}

/// A `bytes` or `string` field as proto3 writes it: nothing when empty.
pub open spec fn bytes_field(tag: nat, b: Seq<u8>) -> Seq<u8> {
    if b.len() == 0 {
        Seq::empty()
    } else {
        delimited_field(tag, b)
    }
}

/// A repeated `bytes` or `string` field: one delimited field per value.
pub open spec fn repeated_field(tag: nat, bs: Seq<Seq<u8>>) -> Seq<u8>
    decreases bs.len(),
{
    if bs.len() == 0 {
        Seq::empty()
    } else {
        repeated_field(tag, bs.drop_last()) + delimited_field(tag, bs.last())
    }
}

/// Appends a field key.
pub fn push_key(out: &mut Vec<u8>, tag: u64, wire_type: u64)
    requires
        tag * 8 + wire_type <= u64::MAX,
    ensures
        final(out)@ == old(out)@ + key_bytes(tag as nat, wire_type as nat),
{
    push_varint(out, tag * 8 + wire_type);
}

/// Appends an `int32` field, leaving out a zero.
pub fn push_int32_field(out: &mut Vec<u8>, tag: u64, v: i32)
    requires
        tag * 8 <= u32::MAX,
    ensures
        final(out)@ == old(out)@ + int32_field(tag as nat, v),
{
    if v != 0 {
        push_key(out, tag, 0);
        push_varint(out, v as u64);
        proof {
            assert(final(out)@ =~= old(out)@ + int32_field(tag as nat, v));
        }
    } else {
        assert(final(out)@ =~= old(out)@ + int32_field(tag as nat, v));
    }
}

/// Appends bytes one by one.
pub fn push_all(out: &mut Vec<u8>, b: &[u8])
    ensures
        final(out)@ == old(out)@ + b@,
{
    let mut i: usize = 0;
    while i < b.len()
        invariant
            i <= b@.len(),
            out@ == old(out)@ + b@.take(i as int),
        decreases b@.len() - i,
    {
        let ghost before = out@;
        out.push(b[i]);
        proof {
            assert(b@.take(i + 1) =~= b@.take(i as int).push(b@[i as int]));
            assert(out@ =~= old(out)@ + b@.take(i + 1));
        }
        i = i + 1;
    }
    proof {
        assert(b@.take(i as int) =~= b@);
    }
}

/// Appends a length-delimited field.
pub fn push_delimited(out: &mut Vec<u8>, tag: u64, b: &[u8])
    requires
        tag * 8 <= u32::MAX,
    ensures
        final(out)@ == old(out)@ + delimited_field(tag as nat, b@),
{
    push_key(out, tag, 2);
    push_varint(out, b.len() as u64);
    push_all(out, b);
    proof {
        assert(final(out)@ =~= old(out)@ + delimited_field(tag as nat, b@));
    }
}

/// Appends a `bytes` or `string` field, leaving out an empty one.
pub fn push_bytes_field(out: &mut Vec<u8>, tag: u64, b: &[u8])
    requires
        tag * 8 <= u32::MAX,
    ensures
        final(out)@ == old(out)@ + bytes_field(tag as nat, b@),
{
    if b.len() != 0 {
        push_delimited(out, tag, b);
    } else {
        assert(final(out)@ =~= old(out)@ + bytes_field(tag as nat, b@));
    }
}

proof fn lemma_varint_len(v: nat, k: nat)
    requires
        k >= 1,
        v < pow128(k),
    ensures
        varint_bytes(v).len() <= k,
        varint_bytes(v).len() >= 1,
    decreases v,
{
    if v >= 128 {
        assert(pow128(k) == 128 * pow128((k - 1) as nat));
        assert(v / 128 < pow128((k - 1) as nat));
        if k == 1 {
            assert(pow128(0) == 1);
        }
        lemma_varint_len(v / 128, (k - 1) as nat);
    }
}

proof fn lemma_varint_value_of_bytes(v: nat, rest: Seq<u8>, k: nat)
    requires
        varint_bytes(v).len() <= k,
    ensures
        varint_value(varint_bytes(v) + rest, k) == Some((v, varint_bytes(v).len())),
    decreases v,
{
    let b = varint_bytes(v);
    let s = b + rest;
    if v < 128 {
        assert(s[0] == v as u8);
    } else {
        lemma_varint_value_of_bytes(v / 128, rest, (k - 1) as nat);
        assert(s.drop_first() =~= varint_bytes(v / 128) + rest);
        assert(s[0] == (v % 128 + 128) as u8);
    }
}

/// A varint reads back as the value written.
pub proof fn lemma_read_varint_bytes(v: u64, rest: Seq<u8>)
    ensures
        read_varint_spec(varint_bytes(v as nat) + rest) == Some((v, varint_bytes(v as nat).len())),
        1 <= varint_bytes(v as nat).len() <= 10,
{
    lemma_pow128_10();
    lemma_varint_len(v as nat, 10);
    lemma_varint_value_of_bytes(v as nat, rest, 10);
}

/// A varint field reads back as the field written.
pub proof fn lemma_varint_field(tag: nat, v: u64, rest: Seq<u8>)
    requires
        1 <= tag,
        tag * 8 <= u32::MAX,
    ensures
        field_at(varint_field(tag, v) + rest) == Some(
            (WireField { tag: tag as u64, wire_type: 0, value: WireValue::Varint(v) }, varint_field(tag, v).len()),
        ),
        varint_field(tag, v).len() > 0,
{
    let key = (tag * 8) as u64;
    let kb = varint_bytes(key as nat);
    let vb = varint_bytes(v as nat);
    lemma_read_varint_bytes(key, vb + rest);
    assert(varint_field(tag, v) + rest =~= kb + (vb + rest));
    assert((kb + (vb + rest)).skip(kb.len() as int) =~= vb + rest);
    lemma_read_varint_bytes(v, rest);
}

/// A delimited field reads back as the field written.
pub proof fn lemma_delimited_field(tag: nat, b: Seq<u8>, rest: Seq<u8>)
    requires
        1 <= tag,
        tag * 8 + 2 <= u32::MAX,
        b.len() <= u64::MAX,
    ensures
        field_at(delimited_field(tag, b) + rest) == Some(
            (WireField { tag: tag as u64, wire_type: 2, value: WireValue::Bytes(b) }, delimited_field(tag, b).len()),
        ),
        delimited_field(tag, b).len() > 0,
{
    let key = (tag * 8 + 2) as u64;
    let kb = varint_bytes(key as nat);
    let lb = varint_bytes(b.len());
    let s = delimited_field(tag, b) + rest;
    lemma_read_varint_bytes(key, lb + b + rest);
    assert(s =~= kb + (lb + b + rest));
    let r = s.skip(kb.len() as int);
    assert(r =~= lb + (b + rest));
    lemma_read_varint_bytes(b.len() as u64, b + rest);
    assert(r.subrange(lb.len() as int, (lb.len() + b.len()) as int) =~= b);
}

/// Decoding a field followed by more bytes steps over that field.
pub proof fn lemma_decode_fields_step<S>(
    step: spec_fn(S, WireField) -> Option<S>,
    st: S,
    fb: Seq<u8>,
    f: WireField,
    rest: Seq<u8>,
)
    requires
        fb.len() > 0,
        field_at(fb + rest) == Some((f, fb.len())),
    ensures
        decode_fields(step, st, fb + rest) == match step(st, f) {
            Some(st2) => decode_fields(step, st2, rest),
            None => None,
        },
{
    assert((fb + rest).skip(fb.len() as int) =~= rest);
}

/// Decoding an `int32` field followed by more bytes.
pub proof fn lemma_decode_int32_field<S>(
    step: spec_fn(S, WireField) -> Option<S>,
    st: S,
    tag: nat,
    v: i32,
    rest: Seq<u8>,
)
    requires
        1 <= tag,
        tag * 8 <= u32::MAX,
    ensures
        decode_fields(step, st, int32_field(tag, v) + rest) == if v == 0 {
            decode_fields(step, st, rest)
        } else {
            match step(st, WireField { tag: tag as u64, wire_type: 0, value: WireValue::Varint(v as u64) }) {
                Some(st2) => decode_fields(step, st2, rest),
                None => None,
            }
        },
{
    if v == 0 {
        assert(int32_field(tag, v) + rest =~= rest);
    } else {
        lemma_varint_field(tag, v as u64, rest);
        lemma_decode_fields_step(step, st, varint_field(tag, v as u64), WireField { tag: tag as u64, wire_type: 0, value: WireValue::Varint(v as u64) }, rest);
    }
}

/// Decoding a length-delimited field followed by more bytes.
pub proof fn lemma_decode_delimited_field<S>(
    step: spec_fn(S, WireField) -> Option<S>,
    st: S,
    tag: nat,
    b: Seq<u8>,
    rest: Seq<u8>,
)
    requires
        1 <= tag,
        tag * 8 + 2 <= u32::MAX,
        b.len() <= u64::MAX,
    ensures
        decode_fields(step, st, delimited_field(tag, b) + rest) == match step(st, WireField { tag: tag as u64, wire_type: 2, value: WireValue::Bytes(b) }) {
            Some(st2) => decode_fields(step, st2, rest),
            None => None,
        },
{
    lemma_delimited_field(tag, b, rest);
    lemma_decode_fields_step(step, st, delimited_field(tag, b), WireField { tag: tag as u64, wire_type: 2, value: WireValue::Bytes(b) }, rest);
}

} // verus!
