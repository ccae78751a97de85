//! The primitive encodings that the file format and the wire protocol are
//! built from: single bytes, fixed-width words, variable-length quantities,
//! length-prefixed byte strings, UTF-8 strings and counted arrays.
//!
//! Every decoder is a function from the bytes that are left to a value and the
//! bytes that follow it. Every encoder appends to a byte vector.

use crate::error::Error;
use crate::node_id::NodeId;
use vstd::prelude::*;
use vstd::slice::*;
use vstd::utf8::*;

verus! {

/// The largest accumulator that can still take one more group of seven bits
/// without leaving `u64`.
pub const VARINT_MAX_HEAD: u64 = 0x01FF_FFFF_FFFF_FFFF;

/// The number of bytes in a revision identifier.
pub const UUID_LEN: usize = 16;

/// What a decoder yields: the value and the bytes after it, or the reason
/// why no value starts here.
pub type Decoded<T> = Result<(T, Seq<u8>), Error>;

// ---------------------------------------------------------------------------
// Single bytes and fixed-width words
// ---------------------------------------------------------------------------

pub open spec fn spec_read_u8(s: Seq<u8>) -> Decoded<u8> {
    if s.len() >= 1 {
        Ok((s[0], s.skip(1)))
    } else {
        Err(Error::UnexpectedEof)
    }
}

/// The four bytes of a 32-bit word, most significant first.
pub open spec fn encode_u32(v: u32) -> Seq<u8> {
    seq![
        (v / 0x100_0000) as u8,
        (v / 0x1_0000 % 0x100) as u8,
        (v / 0x100 % 0x100) as u8,
        (v % 0x100) as u8,
    ]
}

pub open spec fn spec_read_u32(s: Seq<u8>) -> Decoded<u32> {
    if s.len() >= 4 {
        Ok(((s[0] * 0x100_0000 + s[1] * 0x1_0000 + s[2] * 0x100 + s[3]) as u32, s.skip(4)))
    } else {
        Err(Error::UnexpectedEof)
    }
}

/// Takes exactly `n` bytes.
pub open spec fn spec_read_exact(s: Seq<u8>, n: nat) -> Decoded<Seq<u8>> {
    if n <= s.len() {
        Ok((s.take(n as int), s.skip(n as int)))
    } else {
        Err(Error::UnexpectedEof)
    }
}

// ---------------------------------------------------------------------------
// Variable-length quantities
// ---------------------------------------------------------------------------

/// The groups of seven bits of `v`, most significant first, each with the
/// continuation bit set. Empty for zero.
pub open spec fn varint_head(v: nat) -> Seq<u8>
    decreases v,
{
    if v == 0 {
        Seq::empty()
    } else {
        varint_head(v / 128).push((128 + v % 128) as u8)
    }
}

/// The variable-length encoding of `v`: its base-128 digits, most significant
/// first, every byte but the last with the high bit set. No leading zero
/// digit is written, so zero is the single byte `0`.
pub open spec fn encode_varint(v: nat) -> Seq<u8> {
    varint_head(v / 128).push((v % 128) as u8)
}

/// Decoding with the digits read so far folded into `acc`.
pub open spec fn decode_varint_from(acc: nat, s: Seq<u8>) -> Decoded<u64>
    decreases s.len(),
{
    if s.len() == 0 {
        Err(Error::UnexpectedEof)
    } else if acc > VARINT_MAX_HEAD {
        Err(Error::InvalidData)
    } else {
        let next = (acc * 128 + s[0] % 128) as nat;
        if s[0] < 128 {
            Ok((next as u64, s.skip(1)))
        } else {
            decode_varint_from(next, s.skip(1))
        }
    }
}

/// A variable-length quantity at the front of `s`. Leading zero digits are
/// accepted; a value that does not fit 64 bits is `InvalidData`; running out
/// of bytes before the last digit is `UnexpectedEof`.
pub open spec fn spec_read_varint(s: Seq<u8>) -> Decoded<u64> {
    decode_varint_from(0, s)
}

proof fn lemma_varint_head(hi: nat, tail: Seq<u8>)
    requires
        hi <= VARINT_MAX_HEAD,
    ensures
        decode_varint_from(0, varint_head(hi) + tail) == decode_varint_from(hi, tail),
    decreases hi,
{
    if hi == 0 {
        assert(varint_head(hi) + tail =~= tail);
    } else {
        let d = (128 + hi % 128) as u8;
        let rest = seq![d] + tail;
        assert(varint_head(hi) + tail =~= varint_head(hi / 128) + rest);
        lemma_varint_head(hi / 128, rest);
        assert(rest.skip(1) =~= tail);
        assert((hi / 128) * 128 + d % 128 == hi);
    }
}

/// Decoding what `encode_varint` wrote gives the value back and leaves
/// what followed it.
pub proof fn lemma_varint_roundtrip(v: u64, tail: Seq<u8>)
    ensures
        spec_read_varint(encode_varint(v as nat) + tail) == Ok::<_, Error>((v, tail)),
{
    let lo = (v % 128) as u8;
    let rest = seq![lo] + tail;
    assert(encode_varint(v as nat) + tail =~= varint_head(v as nat / 128) + rest);
    lemma_varint_head(v as nat / 128, rest);
    assert(rest.skip(1) =~= tail);
    assert((v as nat / 128) * 128 + lo % 128 == v);
}

/// A 32-bit word survives encoding and decoding.
pub proof fn lemma_u32_roundtrip(v: u32, tail: Seq<u8>)
    ensures
        spec_read_u32(encode_u32(v) + tail) == Ok::<_, Error>((v, tail)),
{
    let s = encode_u32(v) + tail;
    assert(s.skip(4) =~= tail);
    assert(s[0] == (v / 0x100_0000) as u8);
    assert(s[1] == (v / 0x1_0000 % 0x100) as u8);
    assert(s[2] == (v / 0x100 % 0x100) as u8);
    assert(s[3] == (v % 0x100) as u8);
}

// ---------------------------------------------------------------------------
// Byte strings and text
// ---------------------------------------------------------------------------

/// A byte string: its length as a variable-length quantity, then the bytes.
pub open spec fn encode_bytes(b: Seq<u8>) -> Seq<u8> {
    encode_varint(b.len()) + b
}

pub open spec fn spec_read_bytes(s: Seq<u8>) -> Decoded<Seq<u8>> {
    match spec_read_varint(s) {
        Err(e) => Err(e),
        Ok((n, rest)) => spec_read_exact(rest, n as nat),
    }
}

/// Text: the byte string of its UTF-8 encoding.
pub open spec fn encode_string(text: Seq<char>) -> Seq<u8> {
    encode_bytes(encode_utf8(text))
}

/// Text at the front of `s`. Bytes that are not UTF-8 are `InvalidData`.
pub open spec fn spec_read_string(s: Seq<u8>) -> Decoded<Seq<char>> {
    match spec_read_bytes(s) {
        Err(e) => Err(e),
        Ok((b, rest)) => if valid_utf8(b) {
            Ok((decode_utf8(b), rest))
        } else {
            Err(Error::InvalidData)
        },
    }
}

/// A node identifier is written as its index.
pub open spec fn encode_id(id: NodeId) -> Seq<u8> {
    encode_varint(id.index as nat)
}

pub open spec fn spec_read_id(s: Seq<u8>) -> Decoded<NodeId> {
    match spec_read_varint(s) {
        Err(e) => Err(e),
        Ok((index, rest)) => Ok((NodeId { index }, rest)),
    }
}

/// A revision identifier is written as its sixteen bytes.
pub open spec fn encode_uuid(id: Seq<u8>) -> Seq<u8> {
    id
}

pub open spec fn spec_read_uuid(s: Seq<u8>) -> Decoded<Seq<u8>> {
    spec_read_exact(s, UUID_LEN as nat)
}

pub proof fn lemma_bytes_roundtrip(b: Seq<u8>, tail: Seq<u8>)
    requires
        b.len() <= u64::MAX,
    ensures
        spec_read_bytes(encode_bytes(b) + tail) == Ok::<_, Error>((b, tail)),
{
    let rest = b + tail;
    assert(encode_bytes(b) + tail =~= encode_varint(b.len()) + rest);
    lemma_varint_roundtrip(b.len() as u64, rest);
    assert(rest.take(b.len() as int) =~= b);
    assert(rest.skip(b.len() as int) =~= tail);
}

pub proof fn lemma_string_roundtrip(text: Seq<char>, tail: Seq<u8>)
    requires
        encode_utf8(text).len() <= u64::MAX,
    ensures
        spec_read_string(encode_string(text) + tail) == Ok::<_, Error>((text, tail)),
{
    lemma_bytes_roundtrip(encode_utf8(text), tail);
    encode_utf8_valid_utf8(text);
    encode_utf8_decode_utf8(text);
}

pub proof fn lemma_id_roundtrip(id: NodeId, tail: Seq<u8>)
    ensures
        spec_read_id(encode_id(id) + tail) == Ok::<_, Error>((id, tail)),
{
    lemma_varint_roundtrip(id.index, tail);
}

pub proof fn lemma_uuid_roundtrip(id: Seq<u8>, tail: Seq<u8>)
    requires
        id.len() == UUID_LEN,
    ensures
        spec_read_uuid(encode_uuid(id) + tail) == Ok::<_, Error>((id, tail)),
{
    let s = encode_uuid(id) + tail;
    assert(s.take(16) =~= id);
    assert(s.skip(16) =~= tail);
}

// ---------------------------------------------------------------------------
// Counted arrays
// ---------------------------------------------------------------------------

/// `n` items in a row, each read by `read_one` from where the one before it
/// ended. The first failure is the result.
pub open spec fn spec_read_many<T>(
    read_one: spec_fn(Seq<u8>) -> Decoded<T>,
    s: Seq<u8>,
    n: nat,
) -> Decoded<Seq<T>>
    decreases n,
{
    if n == 0 {
        Ok((Seq::empty(), s))
    } else {
        match spec_read_many(read_one, s, (n - 1) as nat) {
            Err(e) => Err(e),
            Ok((items, rest)) => match read_one(rest) {
                Err(e) => Err(e),
                Ok((item, after)) => Ok((items.push(item), after)),
            },
        }
    }
}

/// The encodings of the items, one after the other.
pub open spec fn encode_many<T>(encode_one: spec_fn(T) -> Seq<u8>, items: Seq<T>) -> Seq<u8>
    decreases items.len(),
{
    if items.len() == 0 {
        Seq::empty()
    } else {
        encode_many(encode_one, items.drop_last()) + encode_one(items.last())
    }
}

/// An array: the number of items as a variable-length quantity, then the
/// items.
pub open spec fn encode_array<T>(encode_one: spec_fn(T) -> Seq<u8>, items: Seq<T>) -> Seq<u8> {
    encode_varint(items.len()) + encode_many(encode_one, items)
}

pub open spec fn spec_read_array<T>(read_one: spec_fn(Seq<u8>) -> Decoded<T>, s: Seq<u8>) -> Decoded<
    Seq<T>,
> {
    match spec_read_varint(s) {
        Err(e) => Err(e),
        Ok((n, rest)) => spec_read_many(read_one, rest, n as nat),
    }
}

/// `read_one` undoes `encode_one` on `x`, whatever follows.
pub open spec fn inverts<T>(
    read_one: spec_fn(Seq<u8>) -> Decoded<T>,
    encode_one: spec_fn(T) -> Seq<u8>,
    x: T,
) -> bool {
    forall|tail: Seq<u8>| #[trigger] read_one(encode_one(x) + tail) == Ok::<_, Error>((x, tail))
}

/// Once an item fails to decode, asking for more items fails the same way.
pub proof fn lemma_read_many_error<T>(
    read_one: spec_fn(Seq<u8>) -> Decoded<T>,
    s: Seq<u8>,
    i: nat,
    n: nat,
)
    requires
        i <= n,
        spec_read_many(read_one, s, i) is Err,
    ensures
        spec_read_many(read_one, s, n) == spec_read_many(read_one, s, i),
    decreases n,
{
    if i < n {
        lemma_read_many_error(read_one, s, i, (n - 1) as nat);
    }
}

pub proof fn lemma_many_roundtrip<T>(
    read_one: spec_fn(Seq<u8>) -> Decoded<T>,
    encode_one: spec_fn(T) -> Seq<u8>,
    items: Seq<T>,
    tail: Seq<u8>,
)
    requires
        forall|i: int| 0 <= i < items.len() ==> inverts(read_one, encode_one, #[trigger] items[i]),
    ensures
        spec_read_many(read_one, encode_many(encode_one, items) + tail, items.len()) == Ok::<
            _,
            Error,
        >((items, tail)),
    decreases items.len(),
{
    if items.len() == 0 {
        assert(encode_many(encode_one, items) + tail =~= tail);
        assert(items =~= Seq::empty());
    } else {
        let front = items.drop_last();
        let last = items.last();
        let rest = encode_one(last) + tail;
        assert(encode_many(encode_one, items) + tail =~= encode_many(encode_one, front) + rest);
        assert forall|i: int| 0 <= i < front.len() implies inverts(
            read_one,
            encode_one,
            #[trigger] front[i],
        ) by {
            assert(front[i] == items[i]);
        }
        lemma_many_roundtrip(read_one, encode_one, front, rest);
        assert(inverts(read_one, encode_one, items[items.len() - 1]));
        assert(read_one(encode_one(last) + tail) == Ok::<_, Error>((last, tail)));
        assert(front.push(last) =~= items);
    }
}

pub proof fn lemma_array_roundtrip<T>(
    read_one: spec_fn(Seq<u8>) -> Decoded<T>,
    encode_one: spec_fn(T) -> Seq<u8>,
    items: Seq<T>,
    tail: Seq<u8>,
)
    requires
        items.len() <= u64::MAX,
        forall|i: int| 0 <= i < items.len() ==> inverts(read_one, encode_one, #[trigger] items[i]),
    ensures
        spec_read_array(read_one, encode_array(encode_one, items) + tail) == Ok::<_, Error>(
            (items, tail),
        ),
{
    let rest = encode_many(encode_one, items) + tail;
    assert(encode_array(encode_one, items) + tail =~= encode_varint(items.len()) + rest);
    lemma_varint_roundtrip(items.len() as u64, rest);
    lemma_many_roundtrip(read_one, encode_one, items, tail);
}

/// The decoder of one string, as a value.
pub open spec fn string_reader() -> spec_fn(Seq<u8>) -> Decoded<Seq<char>> {
    |s: Seq<u8>| spec_read_string(s)
}

pub open spec fn string_writer() -> spec_fn(Seq<char>) -> Seq<u8> {
    |text: Seq<char>| encode_string(text)
}

/// The decoder of one revision identifier, as a value.
pub open spec fn uuid_reader() -> spec_fn(Seq<u8>) -> Decoded<Seq<u8>> {
    |s: Seq<u8>| spec_read_uuid(s)
}

pub open spec fn uuid_writer() -> spec_fn(Seq<u8>) -> Seq<u8> {
    |id: Seq<u8>| encode_uuid(id)
}

/// An array of strings survives encoding and decoding.
pub proof fn lemma_string_array_roundtrip(texts: Seq<Seq<char>>, tail: Seq<u8>)
    requires
        texts.len() <= u64::MAX,
        forall|i: int| 0 <= i < texts.len() ==> encode_utf8(#[trigger] texts[i]).len() <= u64::MAX,
    ensures
        spec_read_array(string_reader(), encode_array(string_writer(), texts) + tail) == Ok::<
            _,
            Error,
        >((texts, tail)),
{
    assert forall|i: int| 0 <= i < texts.len() implies inverts(
        string_reader(),
        string_writer(),
        #[trigger] texts[i],
    ) by {
        assert forall|t: Seq<u8>| #[trigger]
            string_reader()(string_writer()(texts[i]) + t) == Ok::<_, Error>((texts[i], t)) by {
            lemma_string_roundtrip(texts[i], t);
        }
    }
    lemma_array_roundtrip(string_reader(), string_writer(), texts, tail);
}

/// An array of revision identifiers survives encoding and decoding.
pub proof fn lemma_uuid_array_roundtrip(ids: Seq<Seq<u8>>, tail: Seq<u8>)
    requires
        ids.len() <= u64::MAX,
        forall|i: int| 0 <= i < ids.len() ==> (#[trigger] ids[i]).len() == UUID_LEN,
    ensures
        spec_read_array(uuid_reader(), encode_array(uuid_writer(), ids) + tail) == Ok::<_, Error>(
            (ids, tail),
        ),
{
    assert forall|i: int| 0 <= i < ids.len() implies inverts(
        uuid_reader(),
        uuid_writer(),
        #[trigger] ids[i],
    ) by {
        assert forall|t: Seq<u8>| #[trigger]
            uuid_reader()(uuid_writer()(ids[i]) + t) == Ok::<_, Error>((ids[i], t)) by {
            lemma_uuid_roundtrip(ids[i], t);
        }
    }
    lemma_array_roundtrip(uuid_reader(), uuid_writer(), ids, tail);
}

// ---------------------------------------------------------------------------
// Decoders
// ---------------------------------------------------------------------------

/// The result of a decoder agrees with what the format prescribes: the same
/// value and the same bytes left over, or the same error.
pub open spec fn yields<T: DeepView>(res: Result<(T, &[u8]), Error>, expected: Decoded<T::V>) -> bool {
    match res {
        Ok((v, rest)) => expected == Ok::<_, Error>((v.deep_view(), rest@)),
        Err(e) => expected == Err::<(T::V, Seq<u8>), Error>(e),
    }
}

/// The bytes of `bytes` from index `from` on.
fn skip_bytes<'a>(bytes: &'a [u8], from: usize) -> (rest: &'a [u8])
    requires
        from <= bytes@.len(),
    ensures
        rest@ == bytes@.skip(from as int),
{
    slice_subrange(bytes, from, bytes.len())
}

pub fn read_u8<'a>(bytes: &'a [u8]) -> (res: Result<(u8, &'a [u8]), Error>)
    ensures
        yields(res, spec_read_u8(bytes@)),
{
    if bytes.len() < 1 {
        return Err(Error::UnexpectedEof);
    }
    Ok((bytes[0], skip_bytes(bytes, 1)))
}

pub fn read_u32<'a>(bytes: &'a [u8]) -> (res: Result<(u32, &'a [u8]), Error>)
    ensures
        yields(res, spec_read_u32(bytes@)),
{
    if bytes.len() < 4 {
        return Err(Error::UnexpectedEof);
    }
    let v: u32 = (bytes[0] as u32) * 0x100_0000 + (bytes[1] as u32) * 0x1_0000 + (bytes[2] as u32)
        * 0x100 + (bytes[3] as u32);
    Ok((v, skip_bytes(bytes, 4)))
}

pub fn read_varint<'a>(bytes: &'a [u8]) -> (res: Result<(u64, &'a [u8]), Error>)
    ensures
        yields(res, spec_read_varint(bytes@)),
{
    let mut acc: u64 = 0;
    let mut i: usize = 0;
    proof {
        assert(bytes@.skip(0) =~= bytes@);
    }
    loop
        invariant
            i <= bytes@.len(),
            decode_varint_from(acc as nat, bytes@.skip(i as int)) == spec_read_varint(bytes@),
        decreases bytes@.len() - i,
    {
        if i >= bytes.len() {
            return Err(Error::UnexpectedEof);
        }
        if acc > VARINT_MAX_HEAD {
            return Err(Error::InvalidData);
        }
        let b = bytes[i];
        proof {
            assert(bytes@.skip(i as int).skip(1) =~= bytes@.skip(i + 1));
            assert(bytes@.skip(i as int)[0] == b);
        }
        acc = acc * 128 + (b % 128) as u64;
        i = i + 1;
        if b < 128 {
            return Ok((acc, skip_bytes(bytes, i)));
        }
    }
}

/// Takes the next `n` bytes.
pub fn read_exact<'a>(bytes: &'a [u8], n: usize) -> (res: Result<(Vec<u8>, &'a [u8]), Error>)
    ensures
        yields(res, spec_read_exact(bytes@, n as nat)),
{
    if n > bytes.len() {
        return Err(Error::UnexpectedEof);
    }
    let data = slice_to_vec(slice_subrange(bytes, 0, n));
    proof {
        assert(data.deep_view() =~= bytes@.take(n as int));
    }
    Ok((data, skip_bytes(bytes, n)))
}

pub fn read_bytes<'a>(bytes: &'a [u8]) -> (res: Result<(Vec<u8>, &'a [u8]), Error>)
    ensures
        yields(res, spec_read_bytes(bytes@)),
{
    let (n, rest) = read_varint(bytes)?;
    if n > rest.len() as u64 {
        return Err(Error::UnexpectedEof);
    }
    read_exact(rest, n as usize)
}

/// The error of `String::from_utf8`. Nothing is read from it.
#[verifier::external_type_specification]
#[verifier::external_body]
pub struct ExFromUtf8Error(std::string::FromUtf8Error);

/// `String::from_utf8` of the standard library. It succeeds exactly on
/// well-formed UTF-8, and the string it builds is the one that those bytes
/// encode: it takes the vector over as the string's buffer.
#[verifier::external_body]
fn string_from_utf8(bytes: Vec<u8>) -> (res: Result<String, std::string::FromUtf8Error>)
    ensures
        res is Ok <==> valid_utf8(bytes@),
        res matches Ok(text) ==> encode_utf8(text@) == bytes@,
{
    String::from_utf8(bytes)
}

pub fn read_string<'a>(bytes: &'a [u8]) -> (res: Result<(String, &'a [u8]), Error>)
    ensures
        yields(res, spec_read_string(bytes@)),
{
    let (data, rest) = read_bytes(bytes)?;
    proof {
        assert(data.deep_view() =~= data@);
    }
    match string_from_utf8(data) {
        Ok(text) => {
            proof {
                encode_utf8_decode_utf8(text@);
            }
            Ok((text, rest))
        },
        Err(_) => Err(Error::InvalidData),
    }
}

pub fn read_id<'a>(bytes: &'a [u8]) -> (res: Result<(NodeId, &'a [u8]), Error>)
    ensures
        yields(res, spec_read_id(bytes@)),
{
    let (index, rest) = read_varint(bytes)?;
    Ok((NodeId { index }, rest))
}

pub fn read_uuid<'a>(bytes: &'a [u8]) -> (res: Result<([u8; 16], &'a [u8]), Error>)
    ensures
        yields(res, spec_read_uuid(bytes@)),
{
    if bytes.len() < UUID_LEN {
        return Err(Error::UnexpectedEof);
    }
    let mut id = [0u8;16];
    let mut i: usize = 0;
    while i < UUID_LEN
        invariant
            i <= UUID_LEN,
            bytes@.len() >= UUID_LEN,
            forall|j: int| 0 <= j < i ==> id@[j] == bytes@[j],
        decreases UUID_LEN - i,
    {
        id[i] = bytes[i];
        i = i + 1;
    }
    proof {
        assert(id.deep_view() =~= bytes@.take(UUID_LEN as int));
    }
    Ok((id, skip_bytes(bytes, UUID_LEN)))
}

pub fn read_string_array<'a>(bytes: &'a [u8]) -> (res: Result<(Vec<String>, &'a [u8]), Error>)
    ensures
        yields(res, spec_read_array(string_reader(), bytes@)),
{
    let (count, start) = read_varint(bytes)?;
    let mut rest = start;
    let mut items: Vec<String> = Vec::new();
    let mut i: u64 = 0;
    proof {
        assert(items.deep_view() =~= Seq::<Seq<char>>::empty());
    }
    while i < count
        invariant
            i <= count,
            spec_read_varint(bytes@) == Ok::<_, Error>((count, start@)),
            spec_read_many(string_reader(), start@, i as nat) == Ok::<_, Error>(
                (items.deep_view(), rest@),
            ),
        decreases count - i,
    {
        let ghost before = items.deep_view();
        match read_string(rest) {
            Ok((text, after)) => {
                items.push(text);
                rest = after;
                proof {
                    assert(items.deep_view() =~= before.push(text.deep_view()));
                }
            },
            Err(e) => {
                proof {
                    lemma_read_many_error(string_reader(), start@, (i + 1) as nat, count as nat);
                }
                return Err(e);
            },
        }
        i = i + 1;
    }
    Ok((items, rest))
}

pub fn read_uuid_array<'a>(bytes: &'a [u8]) -> (res: Result<(Vec<[u8; 16]>, &'a [u8]), Error>)
    ensures
        yields(res, spec_read_array(uuid_reader(), bytes@)),
{
    let (count, start) = read_varint(bytes)?;
    let mut rest = start;
    let mut items: Vec<[u8; 16]> = Vec::new();
    let mut i: u64 = 0;
    proof {
        assert(items.deep_view() =~= Seq::<Seq<u8>>::empty());
    }
    while i < count
        invariant
            i <= count,
            spec_read_varint(bytes@) == Ok::<_, Error>((count, start@)),
            spec_read_many(uuid_reader(), start@, i as nat) == Ok::<_, Error>(
                (items.deep_view(), rest@),
            ),
        decreases count - i,
    {
        let ghost before = items.deep_view();
        match read_uuid(rest) {
            Ok((id, after)) => {
                items.push(id);
                rest = after;
                proof {
                    assert(items.deep_view() =~= before.push(id.deep_view()));
                }
            },
            Err(e) => {
                proof {
                    lemma_read_many_error(uuid_reader(), start@, (i + 1) as nat, count as nat);
                }
                return Err(e);
            },
        }
        i = i + 1;
    }
    Ok((items, rest))
}

// ---------------------------------------------------------------------------
// Encoders
// ---------------------------------------------------------------------------

pub fn write_u8(w: &mut Vec<u8>, v: u8)
    ensures
        final(w)@ == old(w)@.push(v),
{
    w.push(v);
}

pub fn write_u32(w: &mut Vec<u8>, v: u32)
    ensures
        final(w)@ == old(w)@ + encode_u32(v),
{
    w.push((v / 0x100_0000) as u8);
    w.push((v / 0x1_0000 % 0x100) as u8);
    w.push((v / 0x100 % 0x100) as u8);
    w.push((v % 0x100) as u8);
    proof {
        assert(w@ =~= old(w)@ + encode_u32(v));
    }
}

fn write_varint_head(w: &mut Vec<u8>, v: u64)
    ensures
        final(w)@ == old(w)@ + varint_head(v as nat),
    decreases v,
{
    if v != 0 {
        write_varint_head(w, v / 128);
        w.push((128 + v % 128) as u8);
        proof {
            assert(w@ =~= old(w)@ + varint_head(v as nat));
        }
    } else {
        proof {
            assert(w@ =~= old(w)@ + varint_head(v as nat));
        }
    }
}

pub fn write_varint(w: &mut Vec<u8>, v: u64)
    ensures
        final(w)@ == old(w)@ + encode_varint(v as nat),
{
    write_varint_head(w, v / 128);
    w.push((v % 128) as u8);
    proof {
        assert(w@ =~= old(w)@ + encode_varint(v as nat));
    }
}

/// Appends `data` as it is, with no length before it.
pub fn write_all(w: &mut Vec<u8>, data: &[u8])
    ensures
        final(w)@ == old(w)@ + data@,
{
    let mut i: usize = 0;
    while i < data.len()
        invariant
            i <= data@.len(),
            w@ == old(w)@ + data@.take(i as int),
        decreases data@.len() - i,
    {
        w.push(data[i]);
        i = i + 1;
        proof {
            assert(w@ =~= old(w)@ + data@.take(i as int));
        }
    }
    proof {
        assert(data@.take(i as int) =~= data@);
    }
}

pub fn write_bytes(w: &mut Vec<u8>, data: &[u8])
    ensures
        final(w)@ == old(w)@ + encode_bytes(data@),
{
    write_varint(w, data.len() as u64);
    write_all(w, data);
    proof {
        assert(w@ =~= old(w)@ + encode_bytes(data@));
    }
}

pub fn write_string(w: &mut Vec<u8>, text: &str)
    ensures
        final(w)@ == old(w)@ + encode_string(text@),
{
    write_bytes(w, text.as_bytes());
}

pub fn write_id(w: &mut Vec<u8>, id: NodeId)
    ensures
        final(w)@ == old(w)@ + encode_id(id),
{
    write_varint(w, id.index);
}

pub fn write_uuid(w: &mut Vec<u8>, id: &[u8; 16])
    ensures
        final(w)@ == old(w)@ + encode_uuid(id@),
{
    write_all(w, id.as_slice());
}

pub fn write_string_array(w: &mut Vec<u8>, texts: &Vec<String>)
    ensures
        final(w)@ == old(w)@ + encode_array(string_writer(), texts.deep_view()),
{
    write_varint(w, texts.len() as u64);
    let ghost start = w@;
    let mut i: usize = 0;
    while i < texts.len()
        invariant
            i <= texts@.len(),
            w@ == start + encode_many(string_writer(), texts.deep_view().take(i as int)),
        decreases texts@.len() - i,
    {
        write_string(w, texts[i].as_str());
        proof {
            let done = texts.deep_view().take(i + 1);
            assert(done.drop_last() =~= texts.deep_view().take(i as int));
            assert(done.last() == texts[i as int]@);
            assert(w@ =~= start + encode_many(string_writer(), done));
        }
        i = i + 1;
    }
    proof {
        assert(texts.deep_view().take(i as int) =~= texts.deep_view());
        assert(w@ =~= old(w)@ + encode_array(string_writer(), texts.deep_view()));
    }
}

pub fn write_uuid_array(w: &mut Vec<u8>, ids: &Vec<[u8; 16]>)
    ensures
        final(w)@ == old(w)@ + encode_array(uuid_writer(), ids.deep_view()),
{
    write_varint(w, ids.len() as u64);
    let ghost start = w@;
    let mut i: usize = 0;
    while i < ids.len()
        invariant
            i <= ids@.len(),
            w@ == start + encode_many(uuid_writer(), ids.deep_view().take(i as int)),
        decreases ids@.len() - i,
    {
        write_uuid(w, &ids[i]);
        proof {
            let done = ids.deep_view().take(i + 1);
            assert(done.drop_last() =~= ids.deep_view().take(i as int));
            assert(done.last() =~= ids[i as int]@);
            assert(w@ =~= start + encode_many(uuid_writer(), done));
        }
        i = i + 1;
    }
    proof {
        assert(ids.deep_view().take(i as int) =~= ids.deep_view());
        assert(w@ =~= old(w)@ + encode_array(uuid_writer(), ids.deep_view()));
    }
}

} // verus!
