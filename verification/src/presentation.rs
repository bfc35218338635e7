//! Presentations: what a holder gives to a verifier.
use vstd::prelude::*;
use crate::claim::{ClaimData, ClaimView};
use crate::ordered_map::OrderedMap;
use crate::proofs::PresentationProofs;
use crate::scalar::Scalar;

verus! {

/// Defines the proofs for a verifier.
#[derive(Debug)]
pub struct Presentation {
    /// The proofs, by the ids of their statements.
    pub proofs: OrderedMap<PresentationProofs>,
    /// The Fiat-Shamir challenge.
    pub challenge: Scalar,
    /// The disclosed claims, by the ids of their signature statements and by their labels.
    pub disclosed_messages: OrderedMap<OrderedMap<ClaimData>>,
}

/// Disclosed claims in order: their labels, and what they say.
pub open spec fn claims_shown(claims: OrderedMap<ClaimData>) -> Seq<(Seq<char>, ClaimView)> {
    claims.listing().map_values(|e: (Seq<char>, ClaimData)| (e.0, e.1@))
}

impl Clone for Presentation {
    /// A presentation with the same challenge, and with clones of the proofs and of the disclosed
    /// claims under the same ids and labels.
    fn clone(&self) -> (r: Presentation)
        ensures
            r.challenge == self.challenge,
            r.proofs.listing().len() == self.proofs.listing().len(),
            forall|i: int|
                0 <= i < r.proofs.listing().len() ==> (#[trigger] r.proofs.listing()[i]).0
                    == self.proofs.listing()[i].0 && r.proofs.listing()[i].1.says_the_same(
                    self.proofs.listing()[i].1,
                ),
            r.disclosed_messages.listing().len() == self.disclosed_messages.listing().len(),
            forall|i: int|
                0 <= i < r.disclosed_messages.listing().len() ==> {
                    &&& (#[trigger] r.disclosed_messages.listing()[i]).0
                        == self.disclosed_messages.listing()[i].0
                    &&& claims_shown(r.disclosed_messages.listing()[i].1)
                        == claims_shown(self.disclosed_messages.listing()[i].1)
                },
    {
        let r = Presentation {
            proofs: self.proofs.clone(),
            challenge: self.challenge,
            disclosed_messages: self.disclosed_messages.clone(),
        };
        proof {
            assert forall|i: int|
                0 <= i < r.disclosed_messages.listing().len() implies claims_shown(
                (#[trigger] r.disclosed_messages.listing()[i]).1,
            ) == claims_shown(self.disclosed_messages.listing()[i].1) by {
                let a = r.disclosed_messages.listing()[i].1;
                let b = self.disclosed_messages.listing()[i].1;
                assert(cloned(b, a));
                assert(claims_shown(a) =~= claims_shown(b)) by {
                    assert forall|j: int| 0 <= j < a.listing().len() implies (
                    #[trigger] a.listing()[j]).1@ == b.listing()[j].1@ by {
                        assert(cloned(b.listing()[j].1, a.listing()[j].1));
                    }
                }
            }
        }
        r
    }
}

} // verus!
