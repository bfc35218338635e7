//! Elements of the scalar field of BLS12-381.
use vstd::prelude::*;

verus! {

/// The number that a byte string spells, least significant byte first.
pub open spec fn le_value(bytes: Seq<u8>) -> nat
    decreases bytes.len(),
{
    if bytes.len() == 0 {
        0
    } else {
        bytes[0] as nat + 256 * le_value(bytes.drop_first())
    }
}

/// The order of the scalar field.
pub open spec fn scalar_modulus() -> nat {
    0x73eda753299d7d483339d80809a1d80553bda402fffe5bfeffffffff00000001nat
}

/// A scalar, by its 32 bytes in little-endian order.
#[derive(Clone, Copy, Debug, PartialEq, Eq)]
pub struct Scalar {
    pub bytes: [u8; 32],
}

impl Scalar {
    /// The number that stands for the scalar.
    pub open spec fn value(self) -> nat {
        le_value(self.bytes@)
    }

    /// The bytes are those of a number below the order of the field.
    pub open spec fn is_canonical(self) -> bool {
        self.value() < scalar_modulus()
    }

    /// The scalar is one that [`Scalar::random`] can draw.
    pub closed spec fn is_drawn(self) -> bool {
        call_ensures(Scalar::random, (), self)
    }

    /// The scalar zero.
    pub fn zero() -> (r: Scalar)
        ensures
            r.value() == 0,
            r.is_canonical(),
    {
        let r = Scalar { bytes: [0u8; 32] };
        proof {
            lemma_le_value_of_zeros(r.bytes@);
        }
        r
    }

    /// Whether two scalars are the same.
    pub fn same(&self, other: &Scalar) -> (r: bool)
        ensures
            r == (*self == *other),
    {
        let mut i: usize = 0;
        while i < 32
            invariant
                i <= 32,
                forall|j: int| 0 <= j < i ==> self.bytes@[j] == other.bytes@[j],
            decreases 32 - i,
        {
            if self.bytes[i] != other.bytes[i] {
                return false;
            }
            i = i + 1;
        }
        assert(self.bytes =~= other.bytes);
        true
    }

    /// The remainder of a 512-bit number on division by the order of the field.
    ///
    /// Calls `bls12_381_plus::Scalar::from_bytes_wide`, which reads its argument with the least
    /// significant byte first and reduces it, and `to_bytes`, which writes the scalar in the same
    /// order of bytes.
    #[verifier::external_body]
    pub(crate) fn from_bytes_wide(bytes: &[u8; 64]) -> (r: Scalar)
        ensures
            r.value() == le_value(bytes@) % scalar_modulus(),
    {
        Scalar { bytes: bls12_381_plus::Scalar::from_bytes_wide(bytes).to_bytes() }
    }

    /// A scalar drawn by chance.
    ///
    /// Calls `group::ff::Field::random` of `bls12_381_plus::Scalar` on the random source of the
    /// operating system, `rand_core::OsRng`. Which scalar comes is left open; that it is an element
    /// of the field holds of every outcome. Where the operating system has no randomness to give,
    /// the call does not return.
    #[verifier::external_body]
    fn random() -> (r: Scalar)
        ensures
            r.is_canonical(),
    {
        let drawn: bls12_381_plus::Scalar = group::ff::Field::random(rand_core::OsRng {});
        Scalar { bytes: drawn.to_bytes() }
    }
}

/// A source of random scalars. It has a record, for proofs alone, of the scalars that were drawn
/// from it, in order; drawing is the only way to add to it.
pub struct Draws {
    drawn: Ghost<Seq<Scalar>>,
}

impl Draws {
    /// The scalars that were drawn so far.
    pub closed spec fn drawn(self) -> Seq<Scalar> {
        self.drawn@
    }

    /// A source that nothing was drawn from.
    pub fn new() -> (r: Draws)
        ensures
            r.drawn() == Seq::<Scalar>::empty(),
    {
        Draws { drawn: Ghost(Seq::empty()) }
    }

    /// Draws a scalar by chance.
    pub fn draw(&mut self) -> (r: Scalar)
        ensures
            r.is_drawn(),
            final(self).drawn() == old(self).drawn().push(r),
    {
        let r = Scalar::random();
        proof {
            self.drawn@ = self.drawn@.push(r);
        }
        r
    }
}

/// A scalar that is drawn is an element of the field.
pub proof fn lemma_drawn(scalar: Scalar)
    requires
        scalar.is_drawn(),
    ensures
        scalar.is_canonical(),
{
}

/// Zero bytes spell zero.
proof fn lemma_le_value_of_zeros(bytes: Seq<u8>)
    requires
        forall|i: int| 0 <= i < bytes.len() ==> bytes[i] == 0,
    ensures
        le_value(bytes) == 0,
    decreases bytes.len(),
{
    if bytes.len() != 0 {
        lemma_le_value_of_zeros(bytes.drop_first());
    }
}

/// Byte strings of one length that spell one number are the same.
pub proof fn lemma_le_value_injective(a: Seq<u8>, b: Seq<u8>)
    requires
        a.len() == b.len(),
        le_value(a) == le_value(b),
    ensures
        a == b,
    decreases a.len(),
{
    if a.len() == 0 {
        assert(a =~= b);
    } else {
        lemma_le_value_injective(a.drop_first(), b.drop_first());
        assert(a =~= seq![a[0]] + a.drop_first());
        assert(b =~= seq![b[0]] + b.drop_first());
    }
}

} // verus!
