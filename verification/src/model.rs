use vstd::arithmetic::power2::pow2;
use vstd::prelude::*;

verus! {

/// How many model transforms the transform buffer holds per frame.
pub const MAX_MODELS_PER_FRAME: u64 = 64;

/// `size` rounded up by the alignment mask of `alignment`.
pub open spec fn spec_padded_size(size: u64, alignment: u64) -> u64 {
    ((size + alignment - 1) as u64) & !((alignment - 1) as u64)
}

/// Whether `a` is a power of two.
pub open spec fn is_power_of_two(a: u64) -> bool {
    exists|k: nat| k < 64 && a as nat == #[trigger] pow2(k)
}

/// Clearing the bits of a mask keeps the rest: `x & !m` is `x` less `x & m`.
proof fn lemma_clear_mask(x: u64, m: u64)
    ensures
        x & !m == x - (x & m),
{
    assert(x & !m == x - (x & m)) by (bit_vector);
}

/// The size of one transform slot in the uniform buffer: `uniform_size`
/// rounded up to the device's minimum uniform-buffer offset alignment. For
/// a power-of-two alignment (as devices report it) this is the smallest
/// multiple of the alignment that is at least `uniform_size`.
pub fn padded_uniform_size(uniform_size: u64, min_alignment: u64) -> (r: u64)
    requires
        min_alignment > 0,
        uniform_size + min_alignment <= u64::MAX,
    ensures
        r == spec_padded_size(uniform_size, min_alignment),
        is_power_of_two(min_alignment) ==> r % min_alignment == 0 && uniform_size <= r
            && r < uniform_size + min_alignment,
{
    let x = uniform_size + min_alignment - 1;
    let r = x & !(min_alignment - 1);
    proof {
        let x = (uniform_size + min_alignment - 1) as u64;
        lemma_clear_mask(x, (min_alignment - 1) as u64);
        if is_power_of_two(min_alignment) {
            let k = choose|k: nat| k < 64 && min_alignment as nat == #[trigger] pow2(k);
            vstd::bits::lemma_u64_low_bits_mask_is_mod(x, k);
            assert(vstd::bits::low_bits_mask(k) as u64 == (min_alignment - 1) as u64);
            vstd::arithmetic::div_mod::lemma_fundamental_div_mod(x as int, min_alignment as int);
            vstd::arithmetic::div_mod::lemma_mod_multiples_basic(x as int / min_alignment as int, min_alignment as int);
            assert(r == x - x % min_alignment);
        }
    }
    r
}

/// The size of the transform buffer: one padded slot per model of a frame.
pub fn transform_buffer_size(uniform_size: u64, min_alignment: u64) -> (r: u64)
    requires
        min_alignment > 0,
        uniform_size + min_alignment <= u64::MAX,
        MAX_MODELS_PER_FRAME * spec_padded_size(uniform_size, min_alignment) <= u64::MAX,
    ensures
        r == MAX_MODELS_PER_FRAME * spec_padded_size(uniform_size, min_alignment),
{
    MAX_MODELS_PER_FRAME * padded_uniform_size(uniform_size, min_alignment)
}

} // verus!
