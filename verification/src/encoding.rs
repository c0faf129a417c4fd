//! Byte and text encodings: big-endian integers, hexadecimal and Base64.

use base64::engine::general_purpose::STANDARD;
use base64::Engine;
use vstd::prelude::*;

verus! {

/// The number that a byte string denotes, most significant byte first.
pub open spec fn big_endian_value(bytes: Seq<u8>) -> nat
    decreases bytes.len(),
{
    if bytes.len() == 0 {
        0
    } else {
        big_endian_value(bytes.drop_last()) * 256 + bytes.last() as nat
    }
}

/// The lowest `width` bytes of a number, most significant byte first.
pub open spec fn big_endian(value: nat, width: nat) -> Seq<u8>
    decreases width,
{
    if width == 0 {
        Seq::empty()
    } else {
        big_endian(value / 256, (width - 1) as nat).push((value % 256) as u8)
    }
}

/// The number of values that `width` bytes can hold.
pub open spec fn byte_range(width: nat) -> nat
    decreases width,
{
    if width == 0 {
        1
    } else {
        256 * byte_range((width - 1) as nat)
    }
}

/// A number is read back from the bytes it was written to.
pub proof fn lemma_big_endian_round_trip(value: nat, width: nat)
    requires
        value < byte_range(width),
    ensures
        big_endian(value, width).len() == width,
        big_endian_value(big_endian(value, width)) == value,
    decreases width,
{
    if width > 0 {
        let head = big_endian(value / 256, (width - 1) as nat);
        lemma_big_endian_round_trip(value / 256, (width - 1) as nat);
        assert(head.push((value % 256) as u8).drop_last() =~= head);
    }
}

/// The bytes of a number have the width asked for.
pub proof fn lemma_big_endian_length(value: nat, width: nat)
    ensures
        big_endian(value, width).len() == width,
    decreases width,
{
    if width > 0 {
        lemma_big_endian_length(value / 256, (width - 1) as nat);
    }
}

/// The sizes of eight and sixteen byte integers.
pub proof fn lemma_byte_ranges()
    ensures
        byte_range(8) == 0x1_0000_0000_0000_0000,
        byte_range(16) == 0x1_0000_0000_0000_0000_0000_0000_0000_0000,
{
    reveal_with_fuel(byte_range, 17);
}

/// Appends the lowest `width` bytes of a number, most significant byte first.
pub fn push_big_endian(output: &mut Vec<u8>, value: u128, width: usize)
    ensures
        final(output)@ == old(output)@ + big_endian(value as nat, width as nat),
    decreases width,
{
    if width > 0 {
        push_big_endian(output, value / 256, width - 1);
        output.push((value % 256) as u8);
    }
}

/// The number that stands for a signed one in two's complement on 64 bits.
pub open spec fn twos_complement(value: i64) -> nat {
    if value >= 0 {
        value as nat
    } else {
        (value + 0x1_0000_0000_0000_0000) as nat
    }
}

/// A signed number as the unsigned one with the same 64 bits.
pub fn unsigned_bits(value: i64) -> (r: u64)
    ensures
        r == twos_complement(value),
{
    if value >= 0 {
        value as u64
    } else {
        (value - i64::MIN) as u64 + 0x8000_0000_0000_0000
    }
}

/// Copies as many bytes as an array holds.
pub fn copy_bytes<const N: usize>(target: &mut [u8; N], source: &[u8])
    requires
        source@.len() == N,
    ensures
        final(target)@ == source@,
{
    let mut i: usize = 0;
    while i < N
        invariant
            i <= N,
            source@.len() == N,
            forall|j: int| 0 <= j < i ==> target@[j] == source@[j],
        decreases N - i,
    {
        target[i] = source[i];
        i = i + 1;
    }
    assert(target@ =~= source@);
}

/// A lower-case hexadecimal digit.
pub open spec fn hex_digit(value: int) -> char {
    if value < 10 {
        (0x30 + value) as char
    } else {
        (0x61 + value - 10) as char
    }
}

/// Bytes in lower-case hexadecimal, two digits each.
pub open spec fn hex_text(data: Seq<u8>) -> Seq<char> {
    Seq::new(
        2 * data.len(),
        |i: int|
            if i % 2 == 0 {
                hex_digit(data[i / 2] as int / 16)
            } else {
                hex_digit(data[i / 2] as int % 16)
            },
    )
}

/// Whether a character is a hexadecimal digit, of either case.
pub open spec fn is_hex_digit(c: char) -> bool {
    '0' <= c <= '9' || 'a' <= c <= 'f' || 'A' <= c <= 'F'
}

/// The value of a hexadecimal digit.
pub open spec fn hex_digit_value(c: char) -> int {
    if '0' <= c <= '9' {
        c as int - 0x30
    } else if 'a' <= c <= 'f' {
        c as int - 0x61 + 10
    } else {
        c as int - 0x41 + 10
    }
}

/// The bytes that a hexadecimal text denotes, if it is one.
pub open spec fn hex_bytes(text: Seq<char>) -> Option<Seq<u8>> {
    if text.len() % 2 == 0 && forall|i: int|
        0 <= i < text.len() ==> is_hex_digit(#[trigger] text[i]) {
        Some(
            Seq::new(
                text.len() / 2,
                |i: int|
                    (16 * hex_digit_value(text[2 * i]) + hex_digit_value(text[2 * i + 1])) as u8,
            ),
        )
    } else {
        None
    }
}

/// Bytes are read back from their hexadecimal text.
pub proof fn lemma_hex_round_trip(data: Seq<u8>)
    ensures
        hex_bytes(hex_text(data)) == Some(data),
{
    let text = hex_text(data);
    assert forall|i: int| 0 <= i < text.len() implies is_hex_digit(#[trigger] text[i]) by {}
    let back = hex_bytes(text)->0;
    assert forall|i: int| 0 <= i < data.len() implies back[i] == data[i] by {
        assert(text[2 * i] == hex_digit(data[i] as int / 16));
        assert(text[2 * i + 1] == hex_digit(data[i] as int % 16));
    }
    assert(back =~= data);
}

/// `hex::encode`: every byte becomes two lower-case hexadecimal digits, the high half first.
#[verifier::external_body]
pub(crate) fn hex_encode(data: &[u8]) -> (r: String)
    ensures
        r@ == hex_text(data@),
{
    hex::encode(data)
}

/// `hex::decode`: accepts exactly the texts of an even number of hexadecimal digits, of either
/// case and mixed, and gives a byte for each pair, the high half first. The reason for a refusal
/// is dropped.
#[verifier::external_body]
pub(crate) fn hex_decode(text: &str) -> (r: Option<Vec<u8>>)
    ensures
        match r {
            Some(data) => hex_bytes(text@) == Some(data@),
            None => hex_bytes(text@) is None,
        },
{
    hex::decode(text).ok()
}

/// A character of the standard Base64 alphabet.
pub open spec fn base64_symbol(value: int) -> char {
    if value < 26 {
        (0x41 + value) as char
    } else if value < 52 {
        (0x61 + value - 26) as char
    } else if value < 62 {
        (0x30 + value - 52) as char
    } else if value == 62 {
        '+'
    } else {
        '/'
    }
}

/// A byte of the data, or zero behind its end.
pub open spec fn byte_or_zero(data: Seq<u8>, i: int) -> int {
    if i < data.len() {
        data[i] as int
    } else {
        0
    }
}

/// Bits `6 * i` to `6 * i + 5` of the data, with zeros behind its end.
pub open spec fn sextet(data: Seq<u8>, i: int) -> int {
    let first = byte_or_zero(data, 3 * (i / 4));
    let second = byte_or_zero(data, 3 * (i / 4) + 1);
    let third = byte_or_zero(data, 3 * (i / 4) + 2);
    if i % 4 == 0 {
        first / 4
    } else if i % 4 == 1 {
        first % 4 * 16 + second / 16
    } else if i % 4 == 2 {
        second % 16 * 4 + third / 64
    } else {
        third % 64
    }
}

/// The standard Base64 text of the data: a symbol for every six bits, the last ones filled up
/// with zeros, and `=` up to a multiple of four characters.
pub open spec fn base64_text(data: Seq<u8>) -> Seq<char> {
    Seq::new(
        4 * ((data.len() + 2) / 3),
        |i: int|
            if 6 * i < 8 * data.len() {
                base64_symbol(sextet(data, i))
            } else {
                '='
            },
    )
}

/// The data whose standard Base64 text is the given one, if there is any.
pub open spec fn base64_bytes(text: Seq<char>) -> Option<Seq<u8>> {
    if exists|data: Seq<u8>| #[trigger] base64_text(data) == text {
        Some(choose|data: Seq<u8>| #[trigger] base64_text(data) == text)
    } else {
        None
    }
}

proof fn lemma_sextets(data: Seq<u8>, j: int)
    requires
        0 <= j,
    ensures
        forall|i: int| 4 * j <= i < 4 * j + 4 ==> 0 <= #[trigger] sextet(data, i) < 64,
        byte_or_zero(data, 3 * j) == sextet(data, 4 * j) * 4 + sextet(data, 4 * j + 1) / 16,
        byte_or_zero(data, 3 * j + 1) == sextet(data, 4 * j + 1) % 16 * 16 + sextet(data, 4 * j + 2)
            / 4,
        byte_or_zero(data, 3 * j + 2) == sextet(data, 4 * j + 2) % 4 * 64 + sextet(data, 4 * j + 3),
{
    let b0 = byte_or_zero(data, 3 * j);
    let b1 = byte_or_zero(data, 3 * j + 1);
    let b2 = byte_or_zero(data, 3 * j + 2);
    assert(0 <= b0 < 256 && 0 <= b1 < 256 && 0 <= b2 < 256);
    assert(sextet(data, 4 * j) == b0 / 4);
    assert(sextet(data, 4 * j + 1) == b0 % 4 * 16 + b1 / 16);
    assert(sextet(data, 4 * j + 2) == b1 % 16 * 4 + b2 / 64);
    assert(sextet(data, 4 * j + 3) == b2 % 64);
}

proof fn lemma_base64_symbol_injective(a: int, b: int)
    requires
        0 <= a < 64,
        0 <= b < 64,
        base64_symbol(a) == base64_symbol(b),
    ensures
        a == b,
{
}

proof fn lemma_base64_lengths(a: Seq<u8>, b: Seq<u8>)
    requires
        base64_text(a) == base64_text(b),
    ensures
        a.len() >= b.len(),
{
    if a.len() < b.len() {
        let i = (4 * a.len() as int + 2) / 3;
        assert(base64_text(a).len() == base64_text(b).len());
        let groups = (b.len() + 2) / 3;
        assert(6 * i < 8 * b.len() <= 24 * groups);
        assert(0 <= i < base64_text(b).len());
        assert(base64_text(a)[i] == '=');
        assert(base64_text(b)[i] == base64_symbol(sextet(b, i)));
        lemma_sextets(b, i / 4);
        assert(0 <= sextet(b, i) < 64);
    }
}

proof fn lemma_base64_sextets_equal(a: Seq<u8>, b: Seq<u8>, i: int)
    requires
        base64_text(a) == base64_text(b),
        a.len() == b.len(),
        0 <= i,
        6 * i < 8 * a.len(),
    ensures
        sextet(a, i) == sextet(b, i),
{
    assert(base64_text(a)[i] == base64_symbol(sextet(a, i)));
    assert(base64_text(b)[i] == base64_symbol(sextet(b, i)));
    lemma_sextets(a, i / 4);
    lemma_sextets(b, i / 4);
    assert(4 * (i / 4) <= i < 4 * (i / 4) + 4);
    lemma_base64_symbol_injective(sextet(a, i), sextet(b, i));
}

/// Data with the same Base64 text is the same data.
pub proof fn lemma_base64_injective(a: Seq<u8>, b: Seq<u8>)
    requires
        base64_text(a) == base64_text(b),
    ensures
        a == b,
{
    lemma_base64_lengths(a, b);
    lemma_base64_lengths(b, a);
    assert forall|k: int| 0 <= k < a.len() implies a[k] == b[k] by {
        let j = k / 3;
        lemma_sextets(a, j);
        lemma_sextets(b, j);
        assert(byte_or_zero(a, k) == a[k] && byte_or_zero(b, k) == b[k]);
        if k % 3 == 0 {
            lemma_base64_sextets_equal(a, b, 4 * j);
            lemma_base64_sextets_equal(a, b, 4 * j + 1);
        } else if k % 3 == 1 {
            lemma_base64_sextets_equal(a, b, 4 * j + 1);
            lemma_base64_sextets_equal(a, b, 4 * j + 2);
        } else {
            lemma_base64_sextets_equal(a, b, 4 * j + 2);
            lemma_base64_sextets_equal(a, b, 4 * j + 3);
        }
    }
    assert(a =~= b);
}

/// Data is read back from its Base64 text.
pub proof fn lemma_base64_round_trip(data: Seq<u8>)
    ensures
        base64_bytes(base64_text(data)) == Some(data),
{
    let text = base64_text(data);
    let back = choose|d: Seq<u8>| #[trigger] base64_text(d) == text;
    assert(base64_text(back) == text);
    lemma_base64_injective(back, data);
}

/// What is read from a text is the data whose Base64 text it is, and nothing is read exactly where
/// it is the Base64 text of no data.
pub proof fn lemma_base64_bytes(text: Seq<char>)
    ensures
        forall|data: Seq<u8>|
            (base64_bytes(text) == Some(data)) == (#[trigger] base64_text(data) == text),
        base64_bytes(text) is None == (forall|data: Seq<u8>| #[trigger] base64_text(data) != text),
{
    assert forall|data: Seq<u8>|
        (base64_bytes(text) == Some(data)) == (#[trigger] base64_text(data) == text) by {
        if base64_text(data) == text {
            lemma_base64_round_trip(data);
        }
    }
}

/// `base64`'s `STANDARD.encode`: the text of the standard alphabet, padded with `=`. Data whose
/// text would be longer than a `usize` can count makes it panic.
#[verifier::external_body]
pub(crate) fn base64_encode(data: &[u8]) -> (r: String)
    requires
        4 * ((data@.len() + 2) / 3) <= usize::MAX,
    ensures
        r@ == base64_text(data@),
{
    STANDARD.encode(data)
}

/// `base64`'s `STANDARD.decode`: accepts exactly the texts that `encode` writes (padding and the
/// unused low bits of the last symbol must be as `encode` leaves them) and gives back the data.
/// The reason for a refusal is dropped.
#[verifier::external_body]
pub(crate) fn base64_decode(text: &str) -> (r: Option<Vec<u8>>)
    ensures
        match r {
            Some(data) => base64_text(data@) == text@,
            None => forall|data: Seq<u8>| #[trigger] base64_text(data) != text@,
        },
{
    STANDARD.decode(text).ok()
}

/// Reads a Base64 text.
pub fn decode_text(text: &str) -> (r: Option<Vec<u8>>)
    ensures
        match r {
            Some(data) => base64_bytes(text@) == Some(data@),
            None => base64_bytes(text@) is None,
        },
{
    let r = base64_decode(text);
    proof {
        if let Some(data) = &r {
            lemma_base64_round_trip(data@);
        }
    }
    r
}

} // verus!
