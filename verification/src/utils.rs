use vstd::prelude::*;

verus! {

/// The number that four bytes spell, most significant byte first.
pub open spec fn be_value(s: Seq<u8>) -> int {
    s[0] * 0x100_0000 + s[1] * 0x1_0000 + s[2] * 0x100 + s[3]
}

/// The four bytes that spell `x`, most significant byte first.
pub open spec fn be_bytes(x: int) -> Seq<u8> {
    seq![
        ((x / 0x100_0000) % 0x100) as u8,
        ((x / 0x1_0000) % 0x100) as u8,
        ((x / 0x100) % 0x100) as u8,
        (x % 0x100) as u8,
    ]
}

/// Writing a 32-bit number and reading it back gives the number.
pub proof fn lemma_be_value_of_bytes(x: int)
    requires
        0 <= x <= u32::MAX,
    ensures
        be_bytes(x).len() == 4,
        be_value(be_bytes(x)) == x,
{
}

/// The base-256 digits of a number built from four digits are those digits.
proof fn lemma_digits(a: int, b: int, c: int, d: int)
    requires
        0 <= a < 0x100,
        0 <= b < 0x100,
        0 <= c < 0x100,
        0 <= d < 0x100,
    ensures
        ({
            let v = a * 0x100_0000 + b * 0x1_0000 + c * 0x100 + d;
            &&& 0 <= v <= u32::MAX
            &&& (v / 0x100_0000) % 0x100 == a
            &&& (v / 0x1_0000) % 0x100 == b
            &&& (v / 0x100) % 0x100 == c
            &&& v % 0x100 == d
        }),
{
    let v = a * 0x100_0000 + b * 0x1_0000 + c * 0x100 + d;
    let v1 = a * 0x1_0000 + b * 0x100 + c;
    let v2 = a * 0x100 + b;
    assert(v == v1 * 0x100 + d);
    assert(v / 0x100 == v1 && v % 0x100 == d);
    assert(v1 == v2 * 0x100 + c);
    assert(v1 / 0x100 == v2 && v1 % 0x100 == c);
    assert(v / 0x1_0000 == v2);
    assert(v2 / 0x100 == a && v2 % 0x100 == b);
    assert(v / 0x100_0000 == a);
}

/// Reading four bytes and writing the number back gives the bytes.
pub proof fn lemma_be_bytes_of_value(s: Seq<u8>)
    requires
        s.len() == 4,
    ensures
        0 <= be_value(s) <= u32::MAX,
        be_bytes(be_value(s)) == s,
{
    lemma_digits(s[0] as int, s[1] as int, s[2] as int, s[3] as int);
    assert(be_bytes(be_value(s)) =~= s);
}

/// Four-byte sequences that spell one number are one sequence.
pub proof fn lemma_be_value_injective(a: Seq<u8>, b: Seq<u8>)
    requires
        a.len() == 4,
        b.len() == 4,
        be_value(a) == be_value(b),
    ensures
        a == b,
{
    lemma_be_bytes_of_value(a);
    lemma_be_bytes_of_value(b);
}

/// Reads a big-endian 32-bit number from exactly four bytes.
pub fn read_be_u32(bytes: &[u8]) -> (r: u32)
    requires
        bytes@.len() == 4,
    ensures
        r == be_value(bytes@),
{
    let b0: u32 = bytes[0] as u32;
    let b1: u32 = bytes[1] as u32;
    let b2: u32 = bytes[2] as u32;
    let b3: u32 = bytes[3] as u32;
    b0 * 0x100_0000 + b1 * 0x1_0000 + b2 * 0x100 + b3
}

/// Writes a 32-bit number as four bytes, most significant first.
pub fn u32_be_bytes(x: u32) -> (r: [u8; 4])
    ensures
        r@ == be_bytes(x as int),
{
    let r: [u8; 4] = [
        (x / 0x100_0000) as u8,
        ((x / 0x1_0000) % 0x100) as u8,
        ((x / 0x100) % 0x100) as u8,
        (x % 0x100) as u8,
    ];
    assert(r@ =~= be_bytes(x as int));
    r
}

/// Appends a copy of `tail` to `out`.
pub fn push_all(out: &mut Vec<u8>, tail: &[u8])
    ensures
        final(out)@ == old(out)@ + tail@,
{
    let mut i: usize = 0;
    while i < tail.len()
        invariant
            i <= tail@.len(),
            out@ == old(out)@ + tail@.take(i as int),
        decreases tail@.len() - i,
    {
        out.push(tail[i]);
        assert(tail@.take(i as int + 1) =~= tail@.take(i as int).push(tail@[i as int]));
        i = i + 1;
    }
    assert(tail@.take(i as int) =~= tail@);
}

} // verus!
