//! The persisted form of a collection: a MessagePack array of strings.
use vstd::prelude::*;
use vstd::utf8::encode_utf8;

use crate::model::identifiers;

verus! {

/// `n` as two big-endian bytes.
pub open spec fn be16(n: nat) -> Seq<u8> {
    seq![(n / 0x100) as u8, (n % 0x100) as u8]
}

/// `n` as four big-endian bytes.
pub open spec fn be32(n: nat) -> Seq<u8> {
    seq![(n / 0x1000000) as u8, ((n / 0x10000) % 0x100) as u8, ((n / 0x100) % 0x100) as u8, (n % 0x100) as u8]
}

/// The header of an array of `n` elements, in its shortest form.
pub open spec fn array_header(n: nat) -> Seq<u8> {
    if n < 16 {
        seq![(0x90 + n) as u8]
    } else if n < 0x10000 {
        seq![0xdcu8] + be16(n)
    } else {
        seq![0xddu8] + be32(n)
    }
}

/// The header of a string of `n` bytes, in its shortest form.
pub open spec fn str_header(n: nat) -> Seq<u8> {
    if n < 32 {
        seq![(0xa0 + n) as u8]
    } else if n < 0x100 {
        seq![0xd9u8, n as u8]
    } else if n < 0x10000 {
        seq![0xdau8] + be16(n)
    } else {
        seq![0xdbu8] + be32(n)
    }
}

/// One identifier: its header, then its UTF-8 bytes.
pub open spec fn encoded_identifier(s: Seq<char>) -> Seq<u8> {
    str_header(encode_utf8(s).len()) + encode_utf8(s)
}

/// The identifiers of `c` encoded one after the other.
pub open spec fn encoded_items(c: Seq<Seq<char>>) -> Seq<u8>
    decreases c.len(),
{
    if c.len() == 0 {
        seq![]
    } else {
        encoded_identifier(c[0]) + encoded_items(c.drop_first())
    }
}

/// The persisted form of collection `c`.
pub open spec fn encoded_collection(c: Seq<Seq<char>>) -> Seq<u8> {
    array_header(c.len()) + encoded_items(c)
}

/// Whether every length in `c` fits the 32-bit length fields of the format.
pub open spec fn encodable(c: Seq<Seq<char>>) -> bool {
    &&& c.len() <= u32::MAX
    &&& forall|i: int| 0 <= i < c.len() ==> #[trigger] encode_utf8(c[i]).len() <= u32::MAX
}

/// The collection that the MessagePack reader finds in `b`, if it finds one.
pub uninterp spec fn msgpack_collection(b: Seq<u8>) -> Option<Seq<Seq<char>>>;

/// What a stored blob stands for: nothing stored yet is the empty collection.
pub open spec fn decoded_collection(b: Seq<u8>) -> Option<Seq<Seq<char>>> {
    if b.len() == 0 {
        Some(Seq::empty())
    } else {
        msgpack_collection(b)
    }
}

/// A blob that does not hold a collection of identifiers.
#[derive(Debug, PartialEq, Eq)]
pub struct DecodeError {
    /// The reader's account of what is wrong with the blob.
    pub message: String,
}

/// A collection that could not be written out.
#[derive(Debug, PartialEq, Eq)]
pub struct EncodeError {
    /// The writer's account of the failure.
    pub message: String,
}

/// Relies on `rmp_serde::from_slice::<Vec<String>>`: its outcome depends on the
/// bytes alone, and an array of strings written with shortest-form headers, as
/// `encoded_collection` spells it, reads back as exactly those strings.
#[verifier::external_body]
fn read_msgpack_strings(bytes: &[u8]) -> (r: Result<Vec<String>, String>)
    ensures
        r matches Ok(v) ==> msgpack_collection(bytes@) == Some(identifiers(v@)),
        r is Err <==> msgpack_collection(bytes@) is None,
        r is Err ==> forall|c: Seq<Seq<char>>|
            encodable(c) ==> #[trigger] encoded_collection(c) != bytes@,
        r matches Ok(v) ==> forall|c: Seq<Seq<char>>|
            encodable(c) && #[trigger] encoded_collection(c) == bytes@ ==> identifiers(v@) == c,
{
    rmp_serde::from_slice::<Vec<String>>(bytes).map_err(|e| e.to_string())
}

/// Relies on `rmp_serde::to_vec` on a `Vec<String>`: an array header, then each
/// string as a header and its UTF-8 bytes, every header in its shortest form.
/// Its one error is a failed reservation of the output buffer, which, as for
/// every allocation here, is taken not to happen.
#[verifier::external_body]
fn write_msgpack_strings(c: &Vec<String>) -> (r: Result<Vec<u8>, String>)
    ensures
        r is Ok || !encodable(identifiers(c@)),
        r matches Ok(b) ==> (encodable(identifiers(c@)) ==> b@ == encoded_collection(identifiers(c@))),
{
    rmp_serde::to_vec(c).map_err(|e| e.to_string())
}

/// Two numbers below 2^16 with the same two big-endian bytes are equal.
proof fn lemma_be16_injective(n: nat, m: nat)
    requires
        n < 0x10000,
        m < 0x10000,
        be16(n) == be16(m),
    ensures
        n == m,
{
    assert(be16(n)[0] == be16(m)[0] && be16(n)[1] == be16(m)[1]);
    assert(n / 0x100 < 0x100);
    assert(m / 0x100 < 0x100);
    assert(n / 0x100 == m / 0x100);
    assert(n % 0x100 == m % 0x100);
}

/// Two numbers below 2^32 with the same four big-endian bytes are equal.
proof fn lemma_be32_injective(n: nat, m: nat)
    requires
        n < 0x100000000,
        m < 0x100000000,
        be32(n) == be32(m),
    ensures
        n == m,
{
    assert(be32(n)[0] == be32(m)[0] && be32(n)[1] == be32(m)[1]);
    assert(be32(n)[2] == be32(m)[2] && be32(n)[3] == be32(m)[3]);
    assert(n / 0x1000000 < 0x100);
    assert(m / 0x1000000 < 0x100);
    assert(n / 0x1000000 == m / 0x1000000);
    assert((n / 0x10000) % 0x100 == (m / 0x10000) % 0x100);
    assert((n / 0x100) % 0x100 == (m / 0x100) % 0x100);
    assert(n % 0x100 == m % 0x100);
    assert(n / 0x10000 == m / 0x10000);
    assert(n / 0x100 == m / 0x100);
}

/// Equal concatenations with equally long first parts have equal parts.
proof fn lemma_split_equal(h1: Seq<u8>, r1: Seq<u8>, h2: Seq<u8>, r2: Seq<u8>)
    requires
        h1 + r1 == h2 + r2,
        h1.len() == h2.len(),
    ensures
        h1 == h2,
        r1 == r2,
{
    assert(h1 =~= (h1 + r1).subrange(0, h1.len() as int));
    assert(h2 =~= (h2 + r2).subrange(0, h2.len() as int));
    assert(r1 =~= (h1 + r1).subrange(h1.len() as int, (h1 + r1).len() as int));
    assert(r2 =~= (h2 + r2).subrange(h2.len() as int, (h2 + r2).len() as int));
}

/// A string header is read back unambiguously from the front of the bytes.
proof fn lemma_str_header_unique(n: nat, m: nat, a: Seq<u8>, b: Seq<u8>)
    requires
        n <= u32::MAX,
        m <= u32::MAX,
        str_header(n) + a == str_header(m) + b,
    ensures
        n == m,
        a == b,
{
    let x = str_header(n) + a;
    assert(x[0] == str_header(n)[0]);
    assert(x[0] == str_header(m)[0]);
    if n < 32 {
        assert(m < 32);
    } else if n < 0x100 {
        assert(32 <= m < 0x100);
        assert(x[1] == str_header(n)[1] && x[1] == str_header(m)[1]);
    } else if n < 0x10000 {
        assert(0x100 <= m < 0x10000);
        lemma_split_equal(str_header(n), a, str_header(m), b);
        assert(be16(n) =~= str_header(n).subrange(1, 3));
        assert(be16(m) =~= str_header(m).subrange(1, 3));
        lemma_be16_injective(n, m);
    } else {
        assert(0x10000 <= m);
        lemma_split_equal(str_header(n), a, str_header(m), b);
        assert(be32(n) =~= str_header(n).subrange(1, 5));
        assert(be32(m) =~= str_header(m).subrange(1, 5));
        lemma_be32_injective(n, m);
    }
    lemma_split_equal(str_header(n), a, str_header(m), b);
}

/// An array header is read back unambiguously from the front of the bytes.
proof fn lemma_array_header_unique(n: nat, m: nat, a: Seq<u8>, b: Seq<u8>)
    requires
        n <= u32::MAX,
        m <= u32::MAX,
        array_header(n) + a == array_header(m) + b,
    ensures
        n == m,
        a == b,
{
    let x = array_header(n) + a;
    assert(x[0] == array_header(n)[0]);
    assert(x[0] == array_header(m)[0]);
    if n < 16 {
        assert(m < 16);
    } else if n < 0x10000 {
        assert(16 <= m < 0x10000);
        lemma_split_equal(array_header(n), a, array_header(m), b);
        assert(be16(n) =~= array_header(n).subrange(1, 3));
        assert(be16(m) =~= array_header(m).subrange(1, 3));
        lemma_be16_injective(n, m);
    } else {
        assert(0x10000 <= m);
        lemma_split_equal(array_header(n), a, array_header(m), b);
        assert(be32(n) =~= array_header(n).subrange(1, 5));
        assert(be32(m) =~= array_header(m).subrange(1, 5));
        lemma_be32_injective(n, m);
    }
    lemma_split_equal(array_header(n), a, array_header(m), b);
}

/// Equally many encodable identifiers written to the same bytes are the same
/// identifiers.
proof fn lemma_items_unique(c1: Seq<Seq<char>>, c2: Seq<Seq<char>>)
    requires
        encodable(c1),
        encodable(c2),
        c1.len() == c2.len(),
        encoded_items(c1) == encoded_items(c2),
    ensures
        c1 == c2,
    decreases c1.len(),
{
    if c1.len() > 0 {
        let u1 = encode_utf8(c1[0]);
        let u2 = encode_utf8(c2[0]);
        let r1 = encoded_items(c1.drop_first());
        let r2 = encoded_items(c2.drop_first());
        assert(encoded_items(c1) =~= str_header(u1.len()) + (u1 + r1));
        assert(encoded_items(c2) =~= str_header(u2.len()) + (u2 + r2));
        lemma_str_header_unique(u1.len(), u2.len(), u1 + r1, u2 + r2);
        lemma_split_equal(u1, r1, u2, r2);
        vstd::utf8::encode_utf8_decode_utf8(c1[0]);
        vstd::utf8::encode_utf8_decode_utf8(c2[0]);
        assert forall|i: int| 0 <= i < c1.drop_first().len() implies #[trigger] encode_utf8(
            c1.drop_first()[i],
        ).len() <= u32::MAX by {
            assert(c1.drop_first()[i] == c1[i + 1]);
        }
        assert forall|i: int| 0 <= i < c2.drop_first().len() implies #[trigger] encode_utf8(
            c2.drop_first()[i],
        ).len() <= u32::MAX by {
            assert(c2.drop_first()[i] == c2[i + 1]);
        }
        lemma_items_unique(c1.drop_first(), c2.drop_first());
        assert(c1 =~= seq![c1[0]] + c1.drop_first());
        assert(c2 =~= seq![c2[0]] + c2.drop_first());
    } else {
        assert(c1 =~= c2);
    }
}

/// Two encodable collections are written to the same bytes only when they
/// are the same collection: the persisted form keeps every identifier, every
/// duplicate and the order.
pub proof fn lemma_encoding_injective(c1: Seq<Seq<char>>, c2: Seq<Seq<char>>)
    requires
        encodable(c1),
        encodable(c2),
        encoded_collection(c1) == encoded_collection(c2),
    ensures
        c1 == c2,
{
    lemma_array_header_unique(c1.len(), c2.len(), encoded_items(c1), encoded_items(c2));
    lemma_items_unique(c1, c2);
}

/// The persisted form is never empty: it starts with the array header.
pub proof fn lemma_encoding_not_empty(c: Seq<Seq<char>>)
    ensures
        encoded_collection(c).len() > 0,
{
    assert(array_header(c.len()).len() > 0);
}

/// Reads a stored blob back into the collection it holds. An empty blob is
/// the empty collection, and the persisted form of a collection reads back as
/// that same collection, duplicates and order included.
pub fn decode_collection(bytes: &[u8]) -> (r: Result<Vec<String>, DecodeError>)
    ensures
        bytes@.len() == 0 ==> (r matches Ok(v) && v@.len() == 0),
        r matches Ok(v) ==> decoded_collection(bytes@) == Some(identifiers(v@)),
        r is Err <==> decoded_collection(bytes@) is None,
        forall|c: Seq<Seq<char>>|
            encodable(c) && #[trigger] encoded_collection(c) == bytes@ ==> (r matches Ok(v)
                && identifiers(v@) == c),
{
    if bytes.len() == 0 {
        let v: Vec<String> = Vec::new();
        proof {
            assert(identifiers(v@) =~= Seq::<Seq<char>>::empty());
            assert forall|c: Seq<Seq<char>>| #[trigger] encoded_collection(c) != bytes@ by {
                lemma_encoding_not_empty(c);
            }
        }
        return Ok(v);
    }
    match read_msgpack_strings(bytes) {
        Ok(v) => Ok(v),
        Err(message) => Err(DecodeError { message }),
    }
}

/// Writes a collection out in its persisted form, duplicates and order kept.
/// Every collection whose lengths fit the format's 32-bit fields is written.
pub fn serialize_followers_to_mpack(followers: &Vec<String>) -> (r: Result<Vec<u8>, EncodeError>)
    ensures
        encodable(identifiers(followers@)) ==> (r matches Ok(b) && b@ == encoded_collection(
            identifiers(followers@),
        )),
{
    match write_msgpack_strings(followers) {
        Ok(b) => Ok(b),
        Err(message) => Err(EncodeError { message }),
    }
}

} // verus!
