//! How the user-space demo prints numbers: decimal and fixed-width
//! hexadecimal ASCII digits.
use vstd::prelude::*;

verus! {

/// The decimal digits of `n` in ASCII, most significant first, without
/// leading zeros (`0` is one digit).
pub open spec fn decimal_spec(n: nat) -> Seq<u8>
    decreases n,
{
    if n < 10 {
        seq![(0x30 + n) as u8]
    } else {
        decimal_spec(n / 10).push((0x30 + n % 10) as u8)
    }
}

/// The number the decimal digits `d` spell.
pub open spec fn decimal_value(d: Seq<u8>) -> int
    decreases d.len(),
{
    if d.len() == 0 {
        0
    } else {
        decimal_value(d.drop_last()) * 10 + (d.last() - 0x30)
    }
}

/// The decimal digits of `n` in ASCII, most significant first.
pub fn write_decimal(n: u64) -> (r: Vec<u8>)
    ensures
        r@ == decimal_spec(n as nat),
    decreases n,
{
    if n < 10 {
        let mut v: Vec<u8> = Vec::new();
        v.push(0x30 + n as u8);
        assert(v@ =~= decimal_spec(n as nat));
        v
    } else {
        let mut v = write_decimal(n / 10);
        v.push(0x30 + (n % 10) as u8);
        v
    }
}

/// Printing a number in decimal and reading the digits back gives the
/// number, and every digit is an ASCII digit.
pub proof fn lemma_decimal_roundtrip(n: nat)
    ensures
        decimal_value(decimal_spec(n)) == n,
        forall|i: int|
            0 <= i < decimal_spec(n).len() ==> 0x30 <= #[trigger] decimal_spec(n)[i] <= 0x39,
    decreases n,
{
    let d = decimal_spec(n);
    if n >= 10 {
        lemma_decimal_roundtrip(n / 10);
        assert(d.drop_last() =~= decimal_spec(n / 10));
        assert(d.last() == (0x30 + n % 10) as u8);
        assert(0 <= n % 10 < 10);
        assert(d.last() as int == 0x30 + n % 10);
        assert(decimal_value(d) == decimal_value(d.drop_last()) * 10 + (d.last() - 0x30));
        assert(n == (n / 10) * 10 + n % 10);
    } else {
        assert(d.drop_last() =~= Seq::<u8>::empty());
        assert(d.last() == (0x30 + n) as u8);
        assert(d.last() as int == 0x30 + n);
        assert(decimal_value(d) == decimal_value(d.drop_last()) * 10 + (d.last() - 0x30));
    }
}

/// The lower-case hexadecimal digits.
pub const HEX_DIGITS: [u8; 16] = [
    0x30, 0x31, 0x32, 0x33, 0x34, 0x35, 0x36, 0x37, 0x38, 0x39, 0x61, 0x62, 0x63, 0x64, 0x65, 0x66,
];

/// The nibble of `n` that hexadecimal digit `i` (of 16, most significant
/// first) shows.
pub open spec fn nibble(n: u64, i: int) -> int {
    ((n >> ((15 - i) * 4) as u64) & 0xf) as int
}

/// The sixteen lower-case hexadecimal digits of `n`, most significant first.
pub fn write_hex(n: u64) -> (r: [u8; 16])
    ensures
        forall|i: int| 0 <= i < 16 ==> #[trigger] r@[i] == HEX_DIGITS@[nibble(n, i)],
{
    let mut buf: [u8; 16] = [0u8; 16];
    let mut i: usize = 0;
    while i < 16
        invariant
            i <= 16,
            forall|j: int| 0 <= j < i ==> #[trigger] buf@[j] == HEX_DIGITS@[nibble(n, j)],
        decreases 16 - i,
    {
        let shift = ((15 - i) * 4) as u64;
        let d = (n >> shift) & 0xf;
        assert(d < 16) by (bit_vector)
            requires
                d == (n >> shift) & 0xf,
        ;
        buf[i] = HEX_DIGITS[d as usize];
        i = i + 1;
    }
    buf
}

} // verus!
