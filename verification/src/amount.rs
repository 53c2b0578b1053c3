//! Amounts of native currency: non-negative integers of any size.

use crate::managed::{be_value, big_add, big_div, big_le, big_mul, big_sub};
use vstd::prelude::*;

verus! {

/// Dropping leading zero bytes does not change the number denoted.
pub proof fn lemma_leading_zeros(bytes: Seq<u8>, k: int)
    requires
        0 <= k <= bytes.len(),
        forall|j: int| 0 <= j < k ==> bytes[j] == 0,
    ensures
        be_value(bytes) == be_value(bytes.subrange(k, bytes.len() as int)),
    decreases bytes.len(),
{
    let n = bytes.len() as int;
    if n > 0 {
        let front = bytes.drop_last();
        if k == n {
            lemma_leading_zeros(front, n - 1);
            assert(front.subrange(n - 1, n - 1) =~= Seq::<u8>::empty());
            assert(bytes.subrange(n, n) =~= Seq::<u8>::empty());
        } else {
            lemma_leading_zeros(front, k);
            assert(bytes.subrange(k, n).drop_last() =~= front.subrange(k, n - 1));
        }
    }
}

/// A byte string that starts with a non-zero byte denotes a positive number.
pub proof fn lemma_leading_nonzero(bytes: Seq<u8>)
    requires
        bytes.len() > 0,
        bytes[0] != 0,
    ensures
        be_value(bytes) > 0,
    decreases bytes.len(),
{
    if bytes.len() > 1 {
        lemma_leading_nonzero(bytes.drop_last());
    }
}

/// Whether `place` is the weight of the byte that has `left - 1` bytes after
/// it in a number of eight bytes.
pub open spec fn is_place(place: u64, left: u8) -> bool {
    ||| left == 8 && place == 0x0100_0000_0000_0000
    ||| left == 7 && place == 0x0001_0000_0000_0000
    ||| left == 6 && place == 0x0000_0100_0000_0000
    ||| left == 5 && place == 0x0000_0001_0000_0000
    ||| left == 4 && place == 0x0000_0000_0100_0000
    ||| left == 3 && place == 0x0000_0000_0001_0000
    ||| left == 2 && place == 0x0000_0000_0000_0100
    ||| left == 1 && place == 0x0000_0000_0000_0001
}

/// Splitting the top digit off `rest`, which has one digit more than `place`
/// has, moves that digit to the end of the number read so far.
pub proof fn lemma_split_digit(read: nat, place: int, rest: int)
    by (nonlinear_arith)
    requires
        place > 0,
        0 <= rest < place * 256,
    ensures
        0 <= rest / place < 256,
        0 <= rest % place < place,
        read * (place * 256) + rest == (read * 256 + rest / place) * place + rest % place,
        place == 1 ==> read * (place * 256) + rest == read * 256 + rest / place,
        place % 256 == 0 ==> (read * 256 + rest / place) * place == (read * 256 + rest / place)
            * ((place / 256) * 256),
{
}

/// An amount of native currency: a natural number, held as its big-endian
/// bytes without leading zeros.
#[derive(Debug, PartialEq, Eq)]
pub struct Amount {
    bytes: Vec<u8>,
}

impl View for Amount {
    type V = nat;

    closed spec fn view(&self) -> nat {
        be_value(self.bytes@)
    }
}

impl Clone for Amount {
    fn clone(&self) -> (copy: Self)
        ensures
            copy@ == self@,
    {
        proof {
            use_type_invariant(self);
        }
        let bytes = self.bytes.clone();
        assert(bytes@ =~= self.bytes@);
        Amount { bytes }
    }
}

impl Amount {
    #[verifier::type_invariant]
    spec fn minimal(self) -> bool {
        self.bytes@.len() > 0 ==> self.bytes@[0] != 0
    }

    /// The amount zero.
    pub fn zero() -> (amount: Amount)
        ensures
            amount@ == 0,
    {
        Amount { bytes: Vec::new() }
    }

    /// The amount that `bytes` denotes as a big-endian number.
    pub fn from_bytes_be(bytes: &[u8]) -> (amount: Amount)
        ensures
            amount@ == be_value(bytes@),
    {
        let mut start: usize = 0;
        while start < bytes.len() && bytes[start] == 0
            invariant
                start <= bytes.len(),
                forall|j: int| 0 <= j < start ==> bytes@[j] == 0,
            decreases bytes.len() - start,
        {
            start += 1;
        }
        let mut kept: Vec<u8> = Vec::new();
        let mut i: usize = start;
        while i < bytes.len()
            invariant
                start <= i <= bytes.len(),
                kept@ == bytes@.subrange(start as int, i as int),
            decreases bytes.len() - i,
        {
            kept.push(bytes[i]);
            i += 1;
            assert(kept@ =~= bytes@.subrange(start as int, i as int));
        }
        proof {
            lemma_leading_zeros(bytes@, start as int);
        }
        Amount { bytes: kept }
    }

    /// The amount equal to `value`.
    pub fn from_u64(value: u64) -> (amount: Amount)
        ensures
            amount@ == value,
    {
        let mut bytes: Vec<u8> = Vec::new();
        let mut place: u64 = 0x0100_0000_0000_0000;
        let mut rest: u64 = value;
        let mut left: u8 = 8;
        while left > 0
            invariant
                left <= 8,
                left > 0 ==> is_place(place, left),
                left > 0 ==> rest < place * 256,
                left > 0 ==> value == be_value(bytes@) * (place * 256) + rest,
                left == 0 ==> value == be_value(bytes@),
                bytes@.len() > 0 ==> bytes@[0] != 0,
            decreases left,
        {
            let digit: u64 = rest / place;
            let below: u64 = rest % place;
            let ghost before = bytes@;
            proof {
                lemma_split_digit(be_value(before), place as int, rest as int);
            }
            if digit != 0 || bytes.len() != 0 {
                bytes.push(digit as u8);
                assert(bytes@.drop_last() =~= before);
            }
            assert(be_value(bytes@) == be_value(before) * 256 + digit);
            rest = below;
            left -= 1;
            if left > 0 {
                place = place / 256;
            }
        }
        Amount { bytes }
    }

    /// The big-endian bytes of the amount, without leading zeros; zero has none.
    pub fn to_bytes_be(&self) -> (bytes: Vec<u8>)
        ensures
            be_value(bytes@) == self@,
            bytes@.len() > 0 ==> bytes@[0] != 0,
    {
        proof {
            use_type_invariant(self);
        }
        let bytes = self.bytes.clone();
        assert(bytes@ =~= self.bytes@);
        bytes
    }

    /// Whether the amount is zero.
    pub fn is_zero(&self) -> (zero: bool)
        ensures
            zero == (self@ == 0),
    {
        proof {
            use_type_invariant(self);
            if self.bytes@.len() > 0 {
                lemma_leading_nonzero(self.bytes@);
            }
        }
        self.bytes.len() == 0
    }

    /// The sum of two amounts.
    pub fn add(&self, other: &Amount) -> (sum: Amount)
        ensures
            sum@ == self@ + other@,
    {
        let bytes = big_add(self.bytes.as_slice(), other.bytes.as_slice());
        Amount::from_bytes_be(bytes.as_slice())
    }

    /// The difference of two amounts, the second at most the first.
    pub fn sub(&self, other: &Amount) -> (difference: Amount)
        requires
            other@ <= self@,
        ensures
            difference@ == self@ - other@,
    {
        let bytes = big_sub(self.bytes.as_slice(), other.bytes.as_slice());
        Amount::from_bytes_be(bytes.as_slice())
    }

    /// The product of two amounts.
    pub fn mul(&self, other: &Amount) -> (product: Amount)
        ensures
            product@ == self@ * other@,
    {
        let bytes = big_mul(self.bytes.as_slice(), other.bytes.as_slice());
        Amount::from_bytes_be(bytes.as_slice())
    }

    /// The quotient of two amounts, rounded down; the divisor is not zero.
    pub fn div(&self, other: &Amount) -> (quotient: Amount)
        requires
            other@ > 0,
        ensures
            quotient@ == self@ / other@,
    {
        let bytes = big_div(self.bytes.as_slice(), other.bytes.as_slice());
        Amount::from_bytes_be(bytes.as_slice())
    }

    /// The amount multiplied by `factor`.
    pub fn mul_u64(&self, factor: u64) -> (product: Amount)
        ensures
            product@ == self@ * factor,
    {
        self.mul(&Amount::from_u64(factor))
    }

    /// The amount divided by `divisor`, rounded down; the divisor is not zero.
    pub fn div_u64(&self, divisor: u64) -> (quotient: Amount)
        requires
            divisor > 0,
        ensures
            quotient@ == self@ / divisor as nat,
    {
        self.div(&Amount::from_u64(divisor))
    }

    /// Whether this amount is at most the other.
    pub fn le(&self, other: &Amount) -> (at_most: bool)
        ensures
            at_most == (self@ <= other@),
    {
        big_le(self.bytes.as_slice(), other.bytes.as_slice())
    }
}

} // verus!
