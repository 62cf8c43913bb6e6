//! Field elements as memory holds them, and the arithmetic on addresses,
//! which is modulo the field's prime.

use byteorder::{ByteOrder, LittleEndian};
use cairo_vm::utils::PRIME_STR;
use cairo_vm::Felt252;
use num_bigint::BigUint;
use vstd::arithmetic::power2::{lemma2_to64, lemma_pow2_strictly_increases, pow2};
use vstd::arithmetic::div_mod::lemma_small_mod;
use vstd::prelude::*;

verus! {

/// A field element, stored as its 32 little-endian bytes.
#[derive(Clone, Copy, Debug, PartialEq, Eq)]
pub struct Felt {
    pub bytes_le: [u8; 32],
}

/// The number that little-endian `bytes` denote.
pub open spec fn le_value(bytes: Seq<u8>) -> nat
    decreases bytes.len(),
{
    if bytes.len() == 0 {
        0
    } else {
        bytes[0] as nat + 256 * le_value(bytes.drop_first())
    }
}

/// One more than the largest number that `n` bytes can denote.
pub open spec fn byte_range(n: nat) -> nat
    decreases n,
{
    if n == 0 {
        1
    } else {
        256 * byte_range((n - 1) as nat)
    }
}

/// The prime of the field: 2^251 + 17 * 2^192 + 1.
pub open spec fn field_prime() -> nat {
    pow2(251) + 17 * pow2(192) + 1
}

/// The 64-bit word held in the low eight bytes of a field element.
pub open spec fn low_word(f: Felt) -> u64 {
    le_value(f.bytes_le@.subrange(0, 8)) as u64
}

/// `a` reduced modulo the field's prime, where the result fits a `usize`.
pub open spec fn reduced_address(a: nat) -> Option<usize> {
    if a % field_prime() <= usize::MAX {
        Some((a % field_prime()) as usize)
    } else {
        None
    }
}

/// The text that the field library writes for the element with these
/// little-endian bytes.
pub uninterp spec fn felt_hex(bytes_le: Seq<u8>) -> Seq<char>;

proof fn lemma_le_value_bound(bytes: Seq<u8>)
    ensures
        le_value(bytes) < byte_range(bytes.len()),
    decreases bytes.len(),
{
    if bytes.len() > 0 {
        let rest = bytes.drop_first();
        lemma_le_value_bound(rest);
        let v = le_value(rest);
        let r = byte_range(rest.len());
        assert(bytes[0] as nat + 256 * v < 256 * r) by (nonlinear_arith)
            requires
                v < r,
                bytes[0] < 256,
        ;
    }
}

proof fn lemma_usize_below_prime(a: nat)
    requires
        a <= usize::MAX + 1,
    ensures
        a % field_prime() == a,
        reduced_address(a) == (if a <= usize::MAX {
            Some(a as usize)
        } else {
            None::<usize>
        }),
{
    lemma2_to64();
    lemma_pow2_strictly_increases(64, 251);
    lemma_small_mod(a, field_prime());
}

/// Relies on `byteorder::LittleEndian::read_u64`: the first eight bytes as a
/// little-endian number.
#[verifier::external_body]
fn read_u64_le(bytes: &[u8; 32]) -> (r: u64)
    ensures
        r as nat == le_value(bytes@.subrange(0, 8)),
{
    LittleEndian::read_u64(&bytes[..])
}

/// Relies on `Felt252::to_hex_string` of the element read by
/// `Felt252::from_bytes_le`, which never fails on 32 bytes.
#[verifier::external_body]
fn hex_of_bytes(bytes: &[u8; 32]) -> (r: String)
    ensures
        r@ == felt_hex(bytes@),
{
    Felt252::from_bytes_le(bytes).to_hex_string()
}

/// Relies on `%` of `num_bigint::BigUint` with the modulus parsed from
/// `cairo_vm::utils::PRIME_STR`, and on `usize::try_from`, which fails
/// exactly where the remainder does not fit.
#[verifier::external_body]
fn reduce_mod_prime(a: usize) -> (r: Option<usize>)
    ensures
        r == reduced_address(a as nat),
{
    let prime = BigUint::parse_bytes(PRIME_STR[2..].as_bytes(), 16)?;
    usize::try_from(BigUint::from(a) % prime).ok()
}

/// The address after `pc`, reduced modulo the field's prime; `None` where
/// the result would not fit a `usize`.
pub fn next_address(pc: usize) -> (r: Option<usize>)
    ensures
        r == reduced_address(pc as nat + 1),
        r == (if pc < usize::MAX {
            Some((pc + 1) as usize)
        } else {
            None::<usize>
        }),
{
    if pc == usize::MAX {
        proof {
            lemma_usize_below_prime(pc as nat + 1);
        }
        return None;
    }
    proof {
        lemma_usize_below_prime(pc as nat + 1);
    }
    reduce_mod_prime(pc + 1)
}

impl Felt {
    /// The 64-bit word in the element's low eight bytes.
    pub fn low_u64(&self) -> (r: u64)
        ensures
            r == low_word(*self),
    {
        let r = read_u64_le(&self.bytes_le);
        proof {
            let low = self.bytes_le@.subrange(0, 8);
            lemma_le_value_bound(low);
            reveal_with_fuel(byte_range, 9);
            assert(byte_range(8) == 0x1_0000_0000_0000_0000);
        }
        r
    }

    /// The element in hexadecimal, as the field library writes it.
    pub fn to_hex_string(&self) -> (r: String)
        ensures
            r@ == felt_hex(self.bytes_le@),
    {
        hex_of_bytes(&self.bytes_le)
    }
}

} // verus!
