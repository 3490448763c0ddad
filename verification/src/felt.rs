//! Field elements from arbitrary 64-bit words.

use miden_protocol::Felt;
use vstd::prelude::*;

verus! {

/// The order of the base field, `2^64 - 2^32 + 1`.
pub const FIELD_ORDER: u64 = 0xffff_ffff_0000_0001;

/// An element of the base field, as `miden_protocol` represents it.
#[verifier::external_type_specification]
#[verifier::external_body]
pub struct ExFelt(Felt);

/// The field element that `Felt::new` makes of `value`.
pub uninterp spec fn felt_of(value: u64) -> Felt;

/// `Felt::ORDER` is the order of the base field.
#[verifier::external_body]
fn field_order() -> (order: u64)
    ensures
        order == FIELD_ORDER,
{
    Felt::ORDER
}

/// `Felt::new` accepts every `u64` and its result depends on that argument alone. It keeps the
/// argument as it is, so that different values below the order of the field give different
/// elements.
#[verifier::external_body]
fn felt_new(value: u64) -> (felt: Felt)
    ensures
        felt == felt_of(value),
        forall|other: u64|
            value < FIELD_ORDER && other < FIELD_ORDER && felt == #[trigger] felt_of(other)
                ==> other == value,
{
    Felt::new(value)
}

/// `value` modulo the order of the field.
pub open spec fn reduced(value: u64) -> u64 {
    value % FIELD_ORDER
}

/// Maps an arbitrary `u64` onto a canonical field element by reducing modulo the field order.
///
/// Byte-packed digest inputs are arbitrary `u64`s, so reducing here preserves the digest layout.
/// Two words give the same element exactly if they have the same remainder.
pub fn felt_from_u64_reduced(value: u64) -> (felt: Felt)
    ensures
        felt == felt_of(reduced(value)),
        forall|other: u64|
            felt == felt_of(#[trigger] reduced(other)) <==> reduced(value) == reduced(other),
{
    felt_new(value % field_order())
}

/// Reducing gives a canonical value: one below the order of the field, which is the value itself
/// where that is canonical already, and differs from it by the order otherwise.
pub proof fn reducing_gives_a_canonical_value(value: u64)
    ensures
        reduced(value) < FIELD_ORDER,
        value < FIELD_ORDER ==> reduced(value) == value,
        value >= FIELD_ORDER ==> reduced(value) == value - FIELD_ORDER,
{
}

} // verus!
