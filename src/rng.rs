use vstd::prelude::*;

verus! {

#[verifier::external_type_specification]
#[verifier::external_body]
pub struct ExXorShiftRng(rand_xorshift::XorShiftRng);

/// Relies on `RngCore::next_u32` of `rand_xorshift::XorShiftRng`: advances the
/// generator and returns its next word; nothing is promised of the value.
#[verifier::external_body]
pub(crate) fn next_u32(rng: &mut rand_xorshift::XorShiftRng) -> (r: u32) {
    rand::RngCore::next_u32(rng)
}

/// Relies on `RngCore::fill_bytes` of `rand_xorshift::XorShiftRng`: overwrites every
/// byte of `dest`; nothing is promised of the values.
#[verifier::external_body]
pub(crate) fn fill_bytes(rng: &mut rand_xorshift::XorShiftRng, dest: &mut [u8])
    ensures
        final(dest)@.len() == old(dest)@.len(),
{
    rand::RngCore::fill_bytes(rng, dest)
}

/// Folds noise sample number `i` into the seed: the byte `i mod 16` is XORed with
/// `(sample + i) mod 254`.
pub fn mix_noise(seed: &mut [u8; 16], i: usize, sample: u16)
    ensures
        final(seed)@ == old(seed)@.update(
            (i % 16) as int,
            old(seed)@[(i % 16) as int] ^ (((sample as int + i as int) % 254) as u8),
        ),
{
    let j = i % 16;
    let v = ((sample as usize % 254 + i % 254) % 254) as u8;
    assert(((sample as usize % 254 + i % 254) % 254) == ((sample as int + i as int) % 254)) by {
        vstd::arithmetic::div_mod::lemma_add_mod_noop(sample as int, i as int, 254);
    }
    let b = seed[j] ^ v;
    seed.set(j, b);
}

} // verus!
