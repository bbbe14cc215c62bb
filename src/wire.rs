use vstd::prelude::*;
use vstd::utf8::encode_utf8;

verus! {

/// Largest field number of the protobuf wire format.
pub const MAX_TAG: u32 = 536870911;

/// LEB128 form of `v`: seven bits per byte, low bits first, the high bit set
/// on every byte but the last.
pub open spec fn varint(v: nat) -> Seq<u8>
    decreases v,
{
    if v < 128 {
        seq![v as u8]
    } else {
        seq![(v % 128 + 128) as u8] + varint(v / 128)
    }
}

/// The key of a field: its number and its wire type.
pub open spec fn field_key(tag: nat, wire_type: nat) -> Seq<u8> {
    varint(tag * 8 + wire_type)
}

/// A length-delimited field (wire type 2) holding `b`.
pub open spec fn len_field(tag: nat, b: Seq<u8>) -> Seq<u8> {
    field_key(tag, 2) + varint(b.len()) + b
}

/// A varint field (wire type 0) holding `v`, negative values in two's complement.
pub open spec fn int_field(tag: nat, v: int) -> Seq<u8> {
    field_key(tag, 0) + varint(
        if v >= 0 {
            v as nat
        } else {
            (v + 0x1_0000_0000_0000_0000) as nat
        },
    )
}

/// A string field: its UTF-8 bytes, length-delimited.
pub open spec fn str_field(tag: nat, s: Seq<char>) -> Seq<u8> {
    len_field(tag, encode_utf8(s))
}

/// An optional string field: absent when `None`.
pub open spec fn opt_str_field(tag: nat, o: Option<String>) -> Seq<u8> {
    match o {
        Some(s) => str_field(tag, s@),
        None => Seq::empty(),
    }
}

/// An optional bytes field: absent when `None`.
pub open spec fn opt_bytes_field(tag: nat, o: Option<Vec<u8>>) -> Seq<u8> {
    match o {
        Some(b) => len_field(tag, b@),
        None => Seq::empty(),
    }
}

/// The parts laid end to end.
pub open spec fn concat(parts: Seq<Seq<u8>>) -> Seq<u8>
    decreases parts.len(),
{
    if parts.len() == 0 {
        Seq::empty()
    } else {
        concat(parts.drop_last()) + parts.last()
    }
}

/// A repeated string field: one field per element, in order.
pub open spec fn repeated_str_field(tag: nat, v: Seq<String>) -> Seq<u8> {
    concat(v.map_values(|s: String| str_field(tag, s@)))
}

/// A repeated bytes field: one field per element, in order.
pub open spec fn repeated_bytes_field(tag: nat, v: Seq<Vec<u8>>) -> Seq<u8> {
    concat(v.map_values(|b: Vec<u8>| len_field(tag, b@)))
}

/// Relies on prost::encoding::string::encode: appends the key of `tag` with
/// the length-delimited wire type, the byte length of `s` as a varint, and
/// the UTF-8 bytes of `s`.
#[verifier::external_body]
pub(crate) fn put_string(tag: u32, s: &String, buf: &mut Vec<u8>)
    requires
        1 <= tag <= MAX_TAG,
    ensures
        final(buf)@ == old(buf)@ + str_field(tag as nat, s@),
{
    prost::encoding::string::encode(tag, s, buf)
}

/// Relies on prost::encoding::bytes::encode: appends the key of `tag` with
/// the length-delimited wire type, the length of `b` as a varint, and `b`.
#[verifier::external_body]
pub(crate) fn put_bytes(tag: u32, b: &Vec<u8>, buf: &mut Vec<u8>)
    requires
        1 <= tag <= MAX_TAG,
    ensures
        final(buf)@ == old(buf)@ + len_field(tag as nat, b@),
{
    prost::encoding::bytes::encode(tag, b, buf)
}

/// Relies on prost::encoding::int64::encode: appends the key of `tag` with
/// the varint wire type and `v` as a varint of its 64-bit two's complement.
#[verifier::external_body]
pub(crate) fn put_int64(tag: u32, v: i64, buf: &mut Vec<u8>)
    requires
        1 <= tag <= MAX_TAG,
    ensures
        final(buf)@ == old(buf)@ + int_field(tag as nat, v as int),
{
    prost::encoding::int64::encode(tag, &v, buf)
}

/// A varint field (wire type 0) holding the unsigned `v`.
pub open spec fn uint_field(tag: nat, v: nat) -> Seq<u8> {
    field_key(tag, 0) + varint(v)
}

/// Relies on prost::encoding::uint64::encode: appends the key of `tag` with
/// the varint wire type and `v` as a varint.
#[verifier::external_body]
pub(crate) fn put_uint64(tag: u32, v: u64, buf: &mut Vec<u8>)
    requires
        1 <= tag <= MAX_TAG,
    ensures
        final(buf)@ == old(buf)@ + uint_field(tag as nat, v as nat),
{
    prost::encoding::uint64::encode(tag, &v, buf)
}

/// Relies on prost::encoding::int32::encode: appends the key of `tag` with
/// the varint wire type and `v`, sign-extended to 64 bits, as a varint.
#[verifier::external_body]
pub(crate) fn put_int32(tag: u32, v: i32, buf: &mut Vec<u8>)
    requires
        1 <= tag <= MAX_TAG,
    ensures
        final(buf)@ == old(buf)@ + int_field(tag as nat, v as int),
{
    prost::encoding::int32::encode(tag, &v, buf)
}

/// Appends an optional string field.
pub fn put_opt_string(tag: u32, o: &Option<String>, buf: &mut Vec<u8>)
    requires
        1 <= tag <= MAX_TAG,
    ensures
        final(buf)@ == old(buf)@ + opt_str_field(tag as nat, *o),
{
    match o {
        Some(s) => put_string(tag, s, buf),
        None => {
            assert(buf@ =~= buf@ + Seq::<u8>::empty());
        },
    }
}

/// Appends an optional bytes field.
pub fn put_opt_bytes(tag: u32, o: &Option<Vec<u8>>, buf: &mut Vec<u8>)
    requires
        1 <= tag <= MAX_TAG,
    ensures
        final(buf)@ == old(buf)@ + opt_bytes_field(tag as nat, *o),
{
    match o {
        Some(b) => put_bytes(tag, b, buf),
        None => {
            assert(buf@ =~= buf@ + Seq::<u8>::empty());
        },
    }
}

/// Appends a repeated string field.
pub fn put_repeated_strings(tag: u32, v: &Vec<String>, buf: &mut Vec<u8>)
    requires
        1 <= tag <= MAX_TAG,
    ensures
        final(buf)@ == old(buf)@ + repeated_str_field(tag as nat, v@),
{
    let ghost start = buf@;
    let mut i: usize = 0;
    while i < v.len()
        invariant
            1 <= tag <= MAX_TAG,
            i <= v@.len(),
            buf@ == start + repeated_str_field(tag as nat, v@.subrange(0, i as int)),
        decreases v@.len() - i,
    {
        put_string(tag, &v[i], buf);
        proof {
            let f = |s: String| str_field(tag as nat, s@);
            assert(v@.subrange(0, i + 1).map_values(f).drop_last() =~= v@.subrange(0, i as int).map_values(f));
        }
        i = i + 1;
        assert(buf@ =~= start + repeated_str_field(tag as nat, v@.subrange(0, i as int)));
    }
    assert(v@.subrange(0, i as int) =~= v@);
}

/// Appends a repeated bytes field.
pub fn put_repeated_bytes(tag: u32, v: &Vec<Vec<u8>>, buf: &mut Vec<u8>)
    requires
        1 <= tag <= MAX_TAG,
    ensures
        final(buf)@ == old(buf)@ + repeated_bytes_field(tag as nat, v@),
{
    let ghost start = buf@;
    let mut i: usize = 0;
    while i < v.len()
        invariant
            1 <= tag <= MAX_TAG,
            i <= v@.len(),
            buf@ == start + repeated_bytes_field(tag as nat, v@.subrange(0, i as int)),
        decreases v@.len() - i,
    {
        put_bytes(tag, &v[i], buf);
        proof {
            let f = |b: Vec<u8>| len_field(tag as nat, b@);
            assert(v@.subrange(0, i + 1).map_values(f).drop_last() =~= v@.subrange(0, i as int).map_values(f));
        }
        i = i + 1;
        assert(buf@ =~= start + repeated_bytes_field(tag as nat, v@.subrange(0, i as int)));
    }
    assert(v@.subrange(0, i as int) =~= v@);
}

} // verus!
