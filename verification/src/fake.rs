//! Deterministic principals for tests.

use candid::Principal;
use vstd::prelude::*;

verus! {

/// A principal of the Internet Computer.
#[verifier::external_type_specification]
#[verifier::external_body]
pub struct ExPrincipal(Principal);

/// The principal that consists of the given bytes.
pub uninterp spec fn principal_of(bytes: Seq<u8>) -> Principal;

/// `candid::Principal::from_slice`: the principal that consists of `bytes`, of which there are at
/// most twenty-nine. Principals of different bytes differ.
#[verifier::external_body]
fn principal_from_slice(bytes: &[u8]) -> (principal: Principal)
    requires
        bytes@.len() <= 29,
    ensures
        principal == principal_of(bytes@),
        forall|other: Seq<u8>|
            other.len() <= 29 && #[trigger] principal_of(other) == principal ==> other == bytes@,
{
    Principal::from_slice(bytes)
}

/// The bytes of a seed, the most significant first, and then zeros.
pub open spec fn seed_bytes(seed: u32) -> Seq<u8> {
    seq![
        (seed / 0x100_0000) as u8,
        (seed / 0x1_0000 % 0x100) as u8,
        (seed / 0x100 % 0x100) as u8,
        (seed % 0x100) as u8,
    ] + Seq::new(25, |i: int| 0u8)
}

/// Deterministic principal generator for tests.
///
/// Values are derived directly from a numeric seed, making fixtures stable
/// without embedding textual principal literals.
pub struct Fake;

impl Fake {
    /// Deterministically derive a principal from `seed`; different seeds give different principals.
    pub fn principal(seed: u32) -> (principal: Principal)
        ensures
            principal == principal_of(seed_bytes(seed)),
            forall|other: u32| #[trigger]
                principal_of(seed_bytes(other)) == principal ==> other == seed,
    {
        let mut bytes: Vec<u8> = Vec::new();
        bytes.push((seed / 0x100_0000) as u8);
        bytes.push((seed / 0x1_0000 % 0x100) as u8);
        bytes.push((seed / 0x100 % 0x100) as u8);
        bytes.push((seed % 0x100) as u8);
        let mut at: usize = 0;
        while at < 25
            invariant
                at <= 25,
                bytes@.len() == 4 + at,
                bytes@.take(4) == seed_bytes(seed).take(4),
                forall|i: int| 4 <= i < 4 + at ==> #[trigger] bytes@[i] == 0,
            decreases 25 - at,
        {
            let ghost before = bytes@;
            bytes.push(0);
            assert(bytes@.take(4) =~= before.take(4));
            at = at + 1;
        }
        proof {
            assert forall|i: int| 0 <= i < 29 implies bytes@[i] == seed_bytes(seed)[i] by {
                if i < 4 {
                    assert(bytes@.take(4)[i] == seed_bytes(seed).take(4)[i]);
                }
            }
            assert(bytes@ =~= seed_bytes(seed));
        }
        let principal = principal_from_slice(bytes.as_slice());
        proof {
            assert forall|other: u32| #[trigger]
                principal_of(seed_bytes(other)) == principal implies other == seed by {
                lemma_seed_bytes_injective(seed, other);
            }
        }
        principal
    }
}

/// Different seeds have different bytes.
pub proof fn lemma_seed_bytes_injective(left: u32, right: u32)
    requires
        seed_bytes(left) == seed_bytes(right),
    ensures
        left == right,
{
    let (a, b) = (seed_bytes(left), seed_bytes(right));
    assert(a[0] == b[0] && a[1] == b[1] && a[2] == b[2] && a[3] == b[3]);
    assert(a[0] == left / 0x100_0000 && b[0] == right / 0x100_0000);
}

/// A principal is made of its seed, most significant byte first, and zeros behind it.
pub proof fn lemma_seed_comes_first(seed: u32)
    ensures
        seed_bytes(seed).len() == 29,
        seed == seed_bytes(seed)[0] * 16_777_216 + seed_bytes(seed)[1] * 65_536
            + seed_bytes(seed)[2] * 256 + seed_bytes(seed)[3],
        forall|i: int| 4 <= i < 29 ==> #[trigger] seed_bytes(seed)[i] == 0,
{
    let bytes = seed_bytes(seed);
    assert(bytes[0] == seed / 0x100_0000);
    assert(bytes[1] == seed / 0x1_0000 % 0x100);
    assert(bytes[2] == seed / 0x100 % 0x100);
    assert(bytes[3] == seed % 0x100);
}

} // verus!
