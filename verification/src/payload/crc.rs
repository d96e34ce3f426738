//! The checksum over a payload: CRC-32 with the reflected polynomial 0xEDB88320.
use vstd::prelude::*;

verus! {

/// One bit through the shift register.
pub open spec fn round(c: u32) -> u32 {
    if c & 1 != 0 {
        0xedb8_8320u32 ^ (c >> 1)
    } else {
        c >> 1
    }
}

/// Eight bits through the shift register.
pub open spec fn octet(c: u32) -> u32 {
    round(round(round(round(round(round(round(round(c))))))))
}

/// The register after the bytes of `data`, bit by bit.
pub open spec fn register(data: Seq<u8>) -> u32
    decreases data.len(),
{
    if data.len() == 0 {
        0xffff_ffff
    } else {
        octet(register(data.drop_last()) ^ data.last() as u32)
    }
}

/// The checksum of `data`.
pub open spec fn checksum(data: Seq<u8>) -> u32 {
    !register(data)
}

/// Eight bits at a time: the low byte goes through the register, the others move down.
pub proof fn lemma_octet_splits(c: u32)
    by (bit_vector)
    ensures
        octet(c) == octet(c & 0xff) ^ (c >> 8),
        c & 0xff < 256,
{
}

proof fn lemma_low_byte(crc: u32, b: u32)
    by (bit_vector)
    requires
        b < 256,
    ensures
        (crc ^ b) >> 8 == crc >> 8,
{
}

proof fn lemma_round_injective(x: u32, y: u32)
    by (bit_vector)
    ensures
        round(x) == round(y) ==> x == y,
{
}

proof fn lemma_octet_injective(x: u32, y: u32)
    requires
        octet(x) == octet(y),
    ensures
        x == y,
{
    let (x1, y1) = (round(x), round(y));
    let (x2, y2) = (round(x1), round(y1));
    let (x3, y3) = (round(x2), round(y2));
    let (x4, y4) = (round(x3), round(y3));
    let (x5, y5) = (round(x4), round(y4));
    let (x6, y6) = (round(x5), round(y5));
    let (x7, y7) = (round(x6), round(y6));
    lemma_round_injective(x7, y7);
    lemma_round_injective(x6, y6);
    lemma_round_injective(x5, y5);
    lemma_round_injective(x4, y4);
    lemma_round_injective(x3, y3);
    lemma_round_injective(x2, y2);
    lemma_round_injective(x1, y1);
    lemma_round_injective(x, y);
}

proof fn lemma_xor_cancels(x: u32, y: u32, b: u32, c: u32)
    by (bit_vector)
    ensures
        x ^ b == y ^ b ==> x == y,
        x ^ b == x ^ c ==> b == c,
        !x == !y ==> x == y,
{
}

proof fn lemma_register_differs(data: Seq<u8>, other: Seq<u8>, at: int)
    requires
        data.len() == other.len(),
        0 <= at < data.len(),
        data[at] != other[at],
        forall|i: int| 0 <= i < data.len() && i != at ==> data[i] == other[i],
    ensures
        register(data) != register(other),
    decreases data.len(),
{
    let (x, y) = (register(data.drop_last()), register(other.drop_last()));
    let (b, c) = (data.last() as u32, other.last() as u32);
    lemma_xor_cancels(x, y, b, c);
    if register(data) == register(other) {
        lemma_octet_injective(x ^ b, y ^ c);
        if at == data.len() - 1 {
            assert(data.drop_last() =~= other.drop_last());
        } else {
            lemma_register_differs(data.drop_last(), other.drop_last(), at);
        }
    }
}

/// No two messages that differ in exactly one byte share a checksum.
pub proof fn law_one_byte_shows(data: Seq<u8>, other: Seq<u8>, at: int)
    requires
        data.len() == other.len(),
        0 <= at < data.len(),
        data[at] != other[at],
        forall|i: int| 0 <= i < data.len() && i != at ==> data[i] == other[i],
    ensures
        checksum(data) != checksum(other),
{
    lemma_register_differs(data, other, at);
    lemma_xor_cancels(register(data), register(other), 0, 0);
}

fn step(c: u32) -> (next: u32)
    ensures
        next == round(c),
{
    if c & 1 != 0 {
        0xedb8_8320 ^ (c >> 1)
    } else {
        c >> 1
    }
}

/// The register after each possible low byte.
fn table() -> (table: Vec<u32>)
    ensures
        table@.len() == 256,
        forall|i: int| 0 <= i < 256 ==> #[trigger] table@[i] == octet(i as u32),
{
    let mut table: Vec<u32> = Vec::new();
    for i in 0..256u32
        invariant
            table@.len() == i,
            forall|j: int| 0 <= j < i ==> #[trigger] table@[j] == octet(j as u32),
    {
        table.push(step(step(step(step(step(step(step(step(i)))))))));
    }
    table
}

/// Computes the checksum of `data`, a byte at a time.
pub fn crc32(data: &[u8]) -> (sum: u32)
    ensures
        sum == checksum(data@),
{
    let table = table();
    let mut crc: u32 = 0xffff_ffff;
    for i in 0..data.len()
        invariant
            table@.len() == 256,
            forall|j: int| 0 <= j < 256 ==> #[trigger] table@[j] == octet(j as u32),
            crc == register(data@.take(i as int)),
    {
        let b: u32 = data[i] as u32;
        let mixed: u32 = crc ^ b;
        proof {
            lemma_octet_splits(mixed);
            lemma_low_byte(crc, b);
            assert(data@.take(i + 1).drop_last() =~= data@.take(i as int));
        }
        let low: u32 = mixed & 0xff;
        assert(table@[low as int] == octet(low));
        crc = table[low as usize] ^ (crc >> 8);
    }
    assert(data@.take(data@.len() as int) =~= data@);
    !crc
}

} // verus!
