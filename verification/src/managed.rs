//! Arithmetic on big-endian byte strings, carried out by the managed big
//! unsigned integers of the MultiversX framework.
//!
//! The functions of this file are believed, not proved: each hands its
//! operands to `multiversx_sc::types::BigUint`, over the framework's
//! `StaticApi`, and states what that type's operator returns. Operands go in
//! through `BigUint::from_bytes_be` and the result comes out through
//! `BigUint::to_bytes_be`, which read and write a number as big-endian bytes.

use multiversx_sc::types::BigUint;
use multiversx_sc_scenario::api::StaticApi;
use vstd::prelude::*;

verus! {

/// The natural number that a big-endian byte string denotes; the empty string
/// denotes zero.
pub open spec fn be_value(bytes: Seq<u8>) -> nat
    decreases bytes.len(),
{
    if bytes.len() == 0 {
        0
    } else {
        be_value(bytes.drop_last()) * 256 + bytes.last() as nat
    }
}

/// Calls `BigUint + BigUint` (`Add::add`) on the numbers that `a` and `b`
/// denote. Claimed: the result denotes their sum.
#[verifier::external_body]
pub(crate) fn big_add(a: &[u8], b: &[u8]) -> (sum: Vec<u8>)
    ensures
        be_value(sum@) == be_value(a@) + be_value(b@),
{
    let x = BigUint::<StaticApi>::from_bytes_be(a);
    let y = BigUint::<StaticApi>::from_bytes_be(b);
    (x + y).to_bytes_be().as_slice().to_vec()
}

/// Calls `BigUint - BigUint` (`Sub::sub`), which signals an error where the
/// difference would be negative; such operands are left out. Claimed: the
/// result denotes the difference.
#[verifier::external_body]
pub(crate) fn big_sub(a: &[u8], b: &[u8]) -> (difference: Vec<u8>)
    requires
        be_value(b@) <= be_value(a@),
    ensures
        be_value(difference@) == be_value(a@) - be_value(b@),
{
    let x = BigUint::<StaticApi>::from_bytes_be(a);
    let y = BigUint::<StaticApi>::from_bytes_be(b);
    (x - y).to_bytes_be().as_slice().to_vec()
}

/// Calls `BigUint * BigUint` (`Mul::mul`). Claimed: the result denotes the
/// product.
#[verifier::external_body]
pub(crate) fn big_mul(a: &[u8], b: &[u8]) -> (product: Vec<u8>)
    ensures
        be_value(product@) == be_value(a@) * be_value(b@),
{
    let x = BigUint::<StaticApi>::from_bytes_be(a);
    let y = BigUint::<StaticApi>::from_bytes_be(b);
    (x * y).to_bytes_be().as_slice().to_vec()
}

/// Calls `BigUint / BigUint` (`Div::div`), which signals an error on a zero
/// divisor; a zero divisor is left out. Claimed: the result denotes the
/// quotient, rounded down.
#[verifier::external_body]
pub(crate) fn big_div(a: &[u8], b: &[u8]) -> (quotient: Vec<u8>)
    requires
        be_value(b@) > 0,
    ensures
        be_value(quotient@) == be_value(a@) / be_value(b@),
{
    let x = BigUint::<StaticApi>::from_bytes_be(a);
    let y = BigUint::<StaticApi>::from_bytes_be(b);
    (x / y).to_bytes_be().as_slice().to_vec()
}

/// Calls `BigUint <= BigUint` (`PartialOrd::le`). Claimed: the answer is
/// whether the number that `a` denotes is at most the number that `b` denotes.
#[verifier::external_body]
pub(crate) fn big_le(a: &[u8], b: &[u8]) -> (at_most: bool)
    ensures
        at_most == (be_value(a@) <= be_value(b@)),
{
    let x = BigUint::<StaticApi>::from_bytes_be(a);
    let y = BigUint::<StaticApi>::from_bytes_be(b);
    x <= y
}

} // verus!
