use vstd::prelude::*;

verus! {

/// Decimal digit bytes of `n` in ASCII, most significant first, no sign.
pub open spec fn dec_digits(n: nat) -> Seq<u8>
    decreases n,
{
    if n < 10 {
        seq![(n + 0x30) as u8]
    } else {
        dec_digits(n / 10).push((n % 10 + 0x30) as u8)
    }
}

/// Decimal text of a signed number: a leading `-` for negative values.
pub open spec fn dec_signed(n: int) -> Seq<u8> {
    if n < 0 {
        seq![0x2du8] + dec_digits((-n) as nat)
    } else {
        dec_digits(n as nat)
    }
}

/// `n` in at least two digits, zero-padded on the left.
pub open spec fn dec_pad2(n: nat) -> Seq<u8> {
    if n < 10 {
        seq![0x30u8, (n + 0x30) as u8]
    } else {
        dec_digits(n)
    }
}

pub open spec fn is_dec_digit(b: u8) -> bool {
    0x30 <= b <= 0x39
}

pub proof fn lemma_dec_digits_are_digits(n: nat)
    ensures
        dec_digits(n).len() >= 1,
        forall|i: int| 0 <= i < dec_digits(n).len() ==> is_dec_digit(#[trigger] dec_digits(n)[i]),
    decreases n,
{
    if n >= 10 {
        lemma_dec_digits_are_digits(n / 10);
    }
}

/// Decimal digit bytes of `n`, executable form.
pub fn dec_u64(n: u64) -> (r: Vec<u8>)
    ensures
        r@ == dec_digits(n as nat),
    decreases n,
{
    if n < 10 {
        let mut r: Vec<u8> = Vec::new();
        r.push((n as u8) + 0x30);
        assert(r@ =~= dec_digits(n as nat));
        r
    } else {
        let mut r: Vec<u8> = dec_u64(n / 10);
        r.push((n % 10) as u8 + 0x30);
        assert(r@ =~= dec_digits(n as nat));
        r
    }
}

/// Signed decimal text of `n`, executable form.
pub fn dec_i64(n: i64) -> (r: Vec<u8>)
    ensures
        r@ == dec_signed(n as int),
{
    if n >= 0 {
        dec_u64(n as u64)
    } else {
        let mag: u64 = if n == i64::MIN {
            0x8000000000000000u64
        } else {
            (-n) as u64
        };
        let mut r: Vec<u8> = Vec::new();
        r.push(0x2du8);
        let digits = dec_u64(mag);
        let mut i: usize = 0;
        while i < digits.len()
            invariant
                i <= digits@.len(),
                r@ == seq![0x2du8] + digits@.take(i as int),
            decreases digits@.len() - i,
        {
            r.push(digits[i]);
            i = i + 1;
            assert(digits@.take(i as int) =~= digits@.take(i as int - 1).push(digits@[i - 1]));
        }
        assert(digits@.take(digits@.len() as int) =~= digits@);
        assert(r@ =~= dec_signed(n as int));
        r
    }
}

/// `n` in at least two digits, executable form.
pub fn dec_u64_pad2(n: u64) -> (r: Vec<u8>)
    ensures
        r@ == dec_pad2(n as nat),
{
    if n < 10 {
        let mut r: Vec<u8> = Vec::new();
        r.push(0x30u8);
        r.push((n as u8) + 0x30);
        assert(r@ =~= dec_pad2(n as nat));
        r
    } else {
        dec_u64(n)
    }
}

} // verus!
