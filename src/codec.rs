//! The wire format of one entry of the detach list.
//!
//! A name of `n` bytes (`1 <= n <= 128`) is stored as one length byte `2n - 1`
//! followed by the name's bytes with a zero byte between each two of them.
use vstd::prelude::*;

verus! {

/// The largest name, in bytes, whose encoding still fits a one-byte length.
pub const MAX_NAME_LEN: usize = 128;

/// A name that can be stored: between 1 and 128 bytes.
pub open spec fn valid_name(name: Seq<u8>) -> bool {
    1 <= name.len() <= MAX_NAME_LEN
}

/// The payload of a name: each byte but the last followed by a zero byte.
pub open spec fn interleaved(name: Seq<u8>) -> Seq<u8> {
    Seq::new(
        (2 * name.len() - 1) as nat,
        |i: int|
            if i % 2 == 0 {
                name[i / 2]
            } else {
                0u8
            },
    )
}

/// Every other byte, starting at the first one.
pub open spec fn every_other(bytes: Seq<u8>) -> Seq<u8> {
    Seq::new(((bytes.len() + 1) / 2) as nat, |i: int| bytes[2 * i])
}

/// One complete record: the payload's length as a byte, then the payload.
pub open spec fn record_of(name: Seq<u8>) -> Seq<u8> {
    seq![(2 * name.len() - 1) as u8] + interleaved(name)
}

/// Decoding an encoded name gives the name back, and the encoding of `n`
/// bytes is `2n - 1` bytes long.
pub proof fn lemma_decode_encode(name: Seq<u8>)
    requires
        valid_name(name),
    ensures
        every_other(interleaved(name)) == name,
        interleaved(name).len() == 2 * name.len() - 1,
{
    assert(every_other(interleaved(name)) =~= name);
}

/// A record is two bytes per name byte, and starts with the payload length.
pub proof fn lemma_record_shape(name: Seq<u8>)
    requires
        valid_name(name),
    ensures
        record_of(name).len() == 2 * name.len(),
        record_of(name)[0] as int == 2 * name.len() - 1,
        record_of(name).subrange(1, 2 * name.len() as int) == interleaved(name),
{
    assert(record_of(name).subrange(1, 2 * name.len() as int) =~= interleaved(name));
}

/// Encodes a name into its payload.
pub fn encode(name: &[u8]) -> (r: Vec<u8>)
    requires
        valid_name(name@),
    ensures
        r@ == interleaved(name@),
{
    let n = name.len();
    let mut out: Vec<u8> = Vec::with_capacity(2 * n - 1);
    out.push(name[0]);
    let mut i: usize = 1;
    while i < n
        invariant
            1 <= i <= n,
            n == name@.len(),
            n <= MAX_NAME_LEN,
            out@ =~= interleaved(name@.subrange(0, i as int)),
        decreases n - i,
    {
        out.push(0u8);
        out.push(name[i]);
        i = i + 1;
        assert(out@ =~= interleaved(name@.subrange(0, i as int)));
    }
    assert(name@.subrange(0, n as int) =~= name@);
    out
}

/// Encodes a name into a whole record: its length byte, then its payload.
pub fn record(name: &[u8]) -> (r: Vec<u8>)
    requires
        valid_name(name@),
    ensures
        r@ == record_of(name@),
        r@.len() == 2 * name@.len(),
{
    let payload = encode(name);
    let len_byte: u8 = (2 * name.len() - 1) as u8;
    let mut out: Vec<u8> = Vec::with_capacity(payload.len() + 1);
    out.push(len_byte);
    let mut i: usize = 0;
    while i < payload.len()
        invariant
            i <= payload@.len(),
            out@ =~= seq![len_byte] + payload@.subrange(0, i as int),
        decreases payload@.len() - i,
    {
        out.push(payload[i]);
        i = i + 1;
        assert(out@ =~= seq![len_byte] + payload@.subrange(0, i as int));
    }
    assert(payload@.subrange(0, payload@.len() as int) =~= payload@);
    assert(out@ =~= record_of(name@));
    out
}

/// Decodes a payload by keeping every other byte, starting at the first.
pub fn decode(bytes: &[u8]) -> (r: Vec<u8>)
    ensures
        r@ == every_other(bytes@),
{
    let mut out: Vec<u8> = Vec::new();
    let mut i: usize = 0;
    while i < bytes.len()
        invariant
            i % 2 == 0,
            i <= bytes@.len(),
            out@ =~= Seq::new((i / 2) as nat, |j: int| bytes@[2 * j]),
        decreases bytes@.len() - i,
    {
        out.push(bytes[i]);
        if bytes.len() - i <= 2 {
            assert(out@ =~= every_other(bytes@));
            return out;
        }
        i = i + 2;
    }
    assert(out@ =~= every_other(bytes@));
    out
}

} // verus!
