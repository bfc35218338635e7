//! How a signed message takes part in a proof.
use vstd::prelude::*;
use crate::scalar::{Draws, Scalar};

verus! {

/// A message that the verifier does not see.
#[derive(Clone, Copy, Debug, PartialEq, Eq)]
pub enum HiddenMessage {
    /// A message with a blinder that only its own proof knows.
    ProofSpecificBlinding(Scalar),
    /// A message with a blinder that several proofs share.
    ExternalBlinding(Scalar, Scalar),
}

/// A signed message in a proof.
#[derive(Clone, Copy, Debug, PartialEq, Eq)]
pub enum ProofMessage {
    /// The verifier sees the message.
    Revealed(Scalar),
    /// The verifier does not see the message.
    Hidden(HiddenMessage),
}

impl ProofMessage {
    /// The message itself.
    pub open spec fn message(self) -> Scalar {
        match self {
            ProofMessage::Revealed(m) => m,
            ProofMessage::Hidden(HiddenMessage::ProofSpecificBlinding(m)) => m,
            ProofMessage::Hidden(HiddenMessage::ExternalBlinding(m, _)) => m,
        }
    }

    /// The message is hidden behind a blinder that proofs share.
    pub open spec fn is_shared(self) -> bool {
        self matches ProofMessage::Hidden(HiddenMessage::ExternalBlinding(_, _))
    }

    /// The blinder that proofs share.
    pub open spec fn shared_blinder(self) -> Scalar {
        self->Hidden_0->ExternalBlinding_1
    }

    /// Whether the verifier sees the message.
    pub fn is_revealed(&self) -> (r: bool)
        ensures
            r == (*self is Revealed),
    {
        match self {
            ProofMessage::Revealed(_) => true,
            ProofMessage::Hidden(_) => false,
        }
    }

    /// The message itself.
    pub fn get_message(&self) -> (r: Scalar)
        ensures
            r == self.message(),
    {
        match self {
            ProofMessage::Revealed(m) => *m,
            ProofMessage::Hidden(HiddenMessage::ProofSpecificBlinding(m)) => *m,
            ProofMessage::Hidden(HiddenMessage::ExternalBlinding(m, _)) => *m,
        }
    }

    /// The blinder of a hidden message: the shared one, or else one that is drawn for it. A
    /// revealed message has none.
    pub fn get_blinder(&self, draws: &mut Draws) -> (r: Option<Scalar>)
        ensures
            r is None <==> *self is Revealed,
            self.is_shared() ==> r == Some(self.shared_blinder()),
            *self is Hidden && !self.is_shared() ==> r->0.is_drawn() && final(draws).drawn()
                == old(draws).drawn().push(r->0),
            *self is Revealed || self.is_shared() ==> final(draws).drawn() == old(draws).drawn(),
    {
        match self {
            ProofMessage::Revealed(_) => None,
            ProofMessage::Hidden(HiddenMessage::ProofSpecificBlinding(_)) => Some(draws.draw()),
            ProofMessage::Hidden(HiddenMessage::ExternalBlinding(_, b)) => Some(*b),
        }
    }
}

} // verus!
