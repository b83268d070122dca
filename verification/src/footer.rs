//! Where a segment lies in a file, and the buffers that make up its content.

use vstd::arithmetic::power2::pow2;
use vstd::prelude::*;

use crate::encryption::AES_GCM_SPEC_INDEX;

verus! {

/// Whether `x` is a power of two.
pub open spec fn is_power_of_two(x: nat) -> bool
    decreases x,
{
    if x <= 1 {
        x == 1
    } else {
        x % 2 == 0 && is_power_of_two(x / 2)
    }
}

/// The alignment of a buffer: a power of two.
#[derive(Clone, Copy, Debug, PartialEq, Eq, Structural)]
pub struct Alignment {
    value: usize,
}

impl View for Alignment {
    type V = nat;

    closed spec fn view(&self) -> nat {
        self.value as nat
    }
}

impl Alignment {
    #[verifier::type_invariant]
    spec fn inv(self) -> bool {
        is_power_of_two(self.value as nat)
    }

    /// The alignment to multiples of `value`, unless that is no power of two.
    pub fn try_new(value: usize) -> (r: Option<Alignment>)
        ensures
            r is Some <==> is_power_of_two(value as nat),
            r matches Some(a) ==> a@ == value,
    {
        let mut x: usize = value;
        while x > 1 && x % 2 == 0
            invariant
                is_power_of_two(x as nat) <==> is_power_of_two(value as nat),
            decreases x,
        {
            x = x / 2;
        }
        if x == 1 {
            Some(Alignment { value })
        } else {
            None
        }
    }

    /// The alignment that asks for nothing.
    pub fn none() -> (r: Alignment)
        ensures
            r@ == 1,
    {
        Alignment { value: 1 }
    }

    /// The alignment in bytes.
    pub fn as_usize(&self) -> (r: usize)
        ensures
            r == self@,
            is_power_of_two(self@),
            r > 0,
    {
        proof {
            use_type_invariant(self);
        }
        self.value
    }
}

/// Bytes that ask to be stored with an alignment.
pub struct ByteBuffer {
    pub bytes: Vec<u8>,
    pub alignment: Alignment,
}

/// Where a segment lies in the file and how it is stored.
#[derive(Clone, Copy, Debug)]
pub struct SegmentSpec {
    /// Position of the first stored byte.
    pub offset: u64,
    /// Number of stored bytes.
    pub length: u32,
    /// Alignment of the content.
    pub alignment: Alignment,
    /// 0 for plain bytes, else the 1-based index of the cipher.
    pub encryption: u16,
}

impl SegmentSpec {
    /// Whether the stored bytes are encrypted.
    pub open spec fn encrypted(self) -> bool {
        self.encryption != 0
    }

    /// Whether the stored bytes are encrypted.
    pub fn is_encrypted(&self) -> (r: bool)
        ensures
            r == self.encrypted(),
            r <==> self.encryption != 0,
    {
        self.encryption != 0
    }
}

/// The cipher index that marks AES-GCM also marks a segment as encrypted.
pub proof fn law_aes_gcm_index_is_encrypted(spec: SegmentSpec)
    requires
        spec.encryption == AES_GCM_SPEC_INDEX,
    ensures
        spec.encrypted(),
{
}

/// The powers of two are 1, 2, 4 and so on.
pub proof fn law_powers_of_two(x: nat, n: nat)
    ensures
        is_power_of_two(pow2(n)),
        is_power_of_two(x) ==> exists|k: nat| x == #[trigger] pow2(k),
    decreases x + n,
{
    reveal_with_fuel(is_power_of_two, 2);
    vstd::arithmetic::power2::lemma2_to64();
    if n > 0 {
        law_powers_of_two(0, (n - 1) as nat);
        vstd::arithmetic::power2::lemma_pow2_unfold(n);
        vstd::arithmetic::power2::lemma_pow2_pos((n - 1) as nat);
        assert(pow2(n) == 2 * pow2((n - 1) as nat));
    }
    if is_power_of_two(x) {
        if x == 1 {
            assert(x == pow2(0));
        } else {
            law_powers_of_two(x / 2, 0);
            let k = choose|k: nat| x / 2 == #[trigger] pow2(k);
            vstd::arithmetic::power2::lemma_pow2_unfold(k + 1);
            assert(x == pow2(k + 1));
        }
    }
}

} // verus!
