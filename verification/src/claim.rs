//! Claims: the attributes that a credential holds.
use vstd::prelude::*;
use crate::scalar::Scalar;

verus! {

/// A claim that is a number.
#[derive(Clone, Copy, Debug, PartialEq, Eq)]
pub struct NumberClaim {
    pub value: isize,
}

/// A claim of a credential.
#[derive(Debug)]
pub enum ClaimData {
    /// A number, of which ranges can be proved.
    Number(NumberClaim),
    /// Any other attribute, as its issuer writes it.
    Other(Vec<u8>),
}

/// A claim by what it says.
pub enum ClaimView {
    Number(isize),
    Other(Seq<u8>),
}

impl View for ClaimData {
    type V = ClaimView;

    open spec fn view(&self) -> ClaimView {
        match *self {
            ClaimData::Number(n) => ClaimView::Number(n.value),
            ClaimData::Other(content) => ClaimView::Other(content@),
        }
    }
}

impl Clone for ClaimData {
    fn clone(&self) -> (r: ClaimData)
        ensures
            r@ == self@,
    {
        match self {
            ClaimData::Number(n) => ClaimData::Number(*n),
            ClaimData::Other(content) => {
                let copy = content.clone();
                assert(copy@ =~= content@);
                ClaimData::Other(copy)
            },
        }
    }
}

/// How a claim goes into a transcript and into a signature.
#[derive(Debug)]
pub struct ClaimEncoding {
    bytes: Vec<u8>,
    scalar: Scalar,
}

/// An encoding by what it is made of.
pub struct EncodingView {
    /// The claim as bytes.
    pub bytes: Seq<u8>,
    /// The claim as a signed message.
    pub scalar: Scalar,
}

impl View for ClaimEncoding {
    type V = EncodingView;

    closed spec fn view(&self) -> EncodingView {
        EncodingView { bytes: self.bytes@, scalar: self.scalar }
    }
}

impl ClaimEncoding {
    /// The bytes are short enough for a transcript.
    #[verifier::type_invariant]
    pub closed spec fn fits(self) -> bool {
        self.bytes@.len() <= u32::MAX
    }

    /// At most `u32::MAX` bytes, and a scalar.
    pub fn new(bytes: Vec<u8>, scalar: Scalar) -> (r: ClaimEncoding)
        requires
            bytes@.len() <= u32::MAX,
        ensures
            r@ == (EncodingView { bytes: bytes@, scalar }),
    {
        ClaimEncoding { bytes, scalar }
    }

    /// The claim as bytes.
    pub fn to_bytes(&self) -> (r: &Vec<u8>)
        ensures
            r@ == self@.bytes,
            r@.len() <= u32::MAX,
    {
        proof {
            use_type_invariant(self);
        }
        &self.bytes
    }

    /// The claim as a signed message.
    pub fn to_scalar(&self) -> (r: Scalar)
        ensures
            r == self@.scalar,
    {
        self.scalar
    }
}

} // verus!
