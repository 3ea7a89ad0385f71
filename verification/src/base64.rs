//! Base64, by the `base64` crate.
use base64::Engine;
use vstd::prelude::*;

verus! {

/// The character for six bits.
pub open spec fn sextet(n: int) -> char {
    if n < 26 {
        ('A' as u8 + n) as char
    } else if n < 52 {
        ('a' as u8 + (n - 26)) as char
    } else if n < 62 {
        ('0' as u8 + (n - 52)) as char
    } else if n == 62 {
        '+'
    } else {
        '/'
    }
}

/// Bytes in base64, with the standard alphabet and padding: three bytes are four characters.
pub open spec fn encoded(b: Seq<u8>) -> Seq<char>
    decreases b.len(),
{
    if b.len() == 0 {
        Seq::empty()
    } else if b.len() == 1 {
        seq![sextet(b[0] as int / 4), sextet(b[0] as int % 4 * 16), '=', '=']
    } else if b.len() == 2 {
        seq![
            sextet(b[0] as int / 4),
            sextet(b[0] as int % 4 * 16 + b[1] as int / 16),
            sextet(b[1] as int % 16 * 4),
            '=',
        ]
    } else {
        seq![
            sextet(b[0] as int / 4),
            sextet(b[0] as int % 4 * 16 + b[1] as int / 16),
            sextet(b[1] as int % 16 * 4 + b[2] as int / 64),
            sextet(b[2] as int % 64),
        ] + encoded(b.skip(3))
    }
}

/// How long some bytes are in base64.
pub open spec fn encoded_len(n: int) -> int {
    (n + 2) / 3 * 4
}

/// Encodes bytes with the standard alphabet and padding
/// (`base64::engine::general_purpose::STANDARD.encode`): the result is the encoding of the
/// standard. The crate panics where the length of the result does not fit in `usize`.
#[verifier::external_body]
pub(crate) fn encode(bytes: &[u8]) -> (r: String)
    requires
        encoded_len(bytes@.len() as int) <= usize::MAX,
    ensures
        r@ == encoded(bytes@),
{
    base64::engine::general_purpose::STANDARD.encode(bytes)
}

/// The encoding is as long as it is said to be.
pub proof fn encoding_has_its_length(b: Seq<u8>)
    ensures
        encoded(b).len() == encoded_len(b.len() as int),
    decreases b.len(),
{
    if b.len() >= 3 {
        encoding_has_its_length(b.skip(3));
    }
}

/// Three bytes are four characters of six bits each, which hold the bytes in their order; the
/// bytes behind them are encoded on their own.
pub proof fn three_bytes_are_four_characters(a: u8, b: u8, c: u8, rest: Seq<u8>)
    ensures
        encoded(seq![a, b, c] + rest) == encoded(seq![a, b, c]) + encoded(rest),
        ({
            let n = 65536 * a + 256 * b + c;
            encoded(seq![a, b, c]) == seq![
                sextet(n / 262144),
                sextet(n / 4096 % 64),
                sextet(n / 64 % 64),
                sextet(n % 64),
            ]
        }),
{
    let all = seq![a, b, c] + rest;
    let three = seq![a, b, c];
    assert(all.skip(3) =~= rest);
    assert(three.skip(3) =~= Seq::empty());
    assert(encoded(three.skip(3)) =~= Seq::empty());
    assert(all[0] == a && all[1] == b && all[2] == c);
    six_bits(a as int, b as int, c as int);
    assert(encoded(three) =~= seq![
        sextet(a as int / 4),
        sextet(a as int % 4 * 16 + b as int / 16),
        sextet(b as int % 16 * 4 + c as int / 64),
        sextet(c as int % 64),
    ]);
    assert(encoded(all) =~= encoded(three) + encoded(rest));
}

proof fn six_bits(a: int, b: int, c: int)
    requires
        0 <= a < 256,
        0 <= b < 256,
        0 <= c < 256,
    ensures
        (65536 * a + 256 * b + c) / 262144 == a / 4,
        (65536 * a + 256 * b + c) / 4096 % 64 == a % 4 * 16 + b / 16,
        (65536 * a + 256 * b + c) / 64 % 64 == b % 16 * 4 + c / 64,
        (65536 * a + 256 * b + c) % 64 == c % 64,
{
    let n = 65536 * a + 256 * b + c;
    let (x, y, z, w) = (a / 4, a % 4 * 16 + b / 16, b % 16 * 4 + c / 64, c % 64);
    assert(n == 262144 * x + 4096 * y + 64 * z + w);
    assert(0 <= y < 64 && 0 <= z < 64 && 0 <= w < 64);
    assert(n / 64 == 4096 * x + 64 * y + z);
    assert(n / 4096 == 64 * x + y);
    assert(n / 262144 == x);
}

/// The characters are the letters, large before small, the digits, the plus and the slash.
pub proof fn characters_are_those_of_the_standard(n: int)
    requires
        0 <= n < 64,
    ensures
        n < 26 ==> sextet(n) as int == 65 + n,
        26 <= n < 52 ==> sextet(n) as int == 97 + n - 26,
        52 <= n < 62 ==> sextet(n) as int == 48 + n - 52,
        n == 62 ==> sextet(n) == '+',
        n == 63 ==> sextet(n) == '/',
{
}

/// Bytes that are left over are padded with equals signs, as if zeroes stood behind them.
pub proof fn left_over_bytes_are_padded(a: u8, b: u8)
    ensures
        encoded(seq![a]) == encoded(seq![a, 0, 0]).take(2) + seq!['=', '='],
        encoded(seq![a, b]) == encoded(seq![a, b, 0]).take(3) + seq!['='],
{
    assert(seq![a, 0u8, 0u8].skip(3) =~= Seq::empty());
    assert(seq![a, b, 0u8].skip(3) =~= Seq::empty());
    assert(encoded(Seq::<u8>::empty()) =~= Seq::empty());
    assert(encoded(seq![a]) =~= encoded(seq![a, 0, 0]).take(2) + seq!['=', '=']);
    assert(encoded(seq![a, b]) =~= encoded(seq![a, b, 0]).take(3) + seq!['=']);
}

} // verus!
