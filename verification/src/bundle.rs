//! Commitment proofs and the proof bundle handed to the external verifier.

use vstd::prelude::*;

use crate::error::Error;
use crate::height::Height;

verus! {

/// A commitment proof: opaque bytes produced by the counterparty chain and
/// passed through to the external proof verifier.
#[derive(Debug, Clone, PartialEq, Eq)]
pub struct CommitmentProofBytes {
    pub bytes: Vec<u8>,
}

impl View for CommitmentProofBytes {
    type V = Seq<u8>;

    open spec fn view(&self) -> Seq<u8> {
        self.bytes@
    }
}

/// A consensus-state proof stamped with the height it attests to.
#[derive(Debug, Clone, PartialEq, Eq)]
pub struct ConsensusProof {
    pub proof: CommitmentProofBytes,
    pub height: Height,
}

impl ConsensusProof {
    /// Pair a consensus proof with its height.  The pairing fails exactly on
    /// an empty proof, which cannot attest to anything.
    pub fn new(proof: CommitmentProofBytes, height: Height) -> (r: Result<ConsensusProof, Error>)
        ensures
            r matches Ok(c) ==> c.proof@ == proof@ && c.height == height,
            r is Err <==> proof@.len() == 0,
    {
        if proof.bytes.len() == 0 {
            Err(Error::DecodingError("empty consensus proof".to_owned()))
        } else {
            Ok(ConsensusProof { proof, height })
        }
    }
}

/// Everything the external verifier needs for one handshake step, assembled
/// on demand and consumed once.
#[derive(Debug, Clone, PartialEq, Eq)]
pub struct ProofBundle {
    /// The proof that the connection end exists on the counterparty chain.
    pub object_proof: CommitmentProofBytes,
    /// The client-state proof, when one travels with the message.
    pub client_proof: Option<CommitmentProofBytes>,
    /// The height-stamped consensus proof, when one travels with the message.
    pub consensus_proof: Option<ConsensusProof>,
    /// A slot for future proof kinds; always empty in this codec's usage.
    pub other_proof: Option<CommitmentProofBytes>,
    /// The height all the proofs are read at.
    pub height: Height,
}

/// Assemble the bundle for the connection-open-try step: the connection
/// proof as the object proof, the client proof alongside it, the consensus
/// proof stamped with exactly the given height, and an empty slot for other
/// proof kinds.  Only the stamping step can fail, and it fails exactly on an
/// empty consensus proof.
pub fn assemble_proofs(
    connection_proof: CommitmentProofBytes,
    client_proof: CommitmentProofBytes,
    consensus_proof: CommitmentProofBytes,
    height: Height,
) -> (r: Result<ProofBundle, Error>)
    ensures
        r matches Ok(b) ==> ({
            &&& b.object_proof@ == connection_proof@
            &&& b.client_proof matches Some(c) && c@ == client_proof@
            &&& b.consensus_proof matches Some(c) && c.proof@ == consensus_proof@ && c.height
                == height
            &&& b.other_proof is None
            &&& b.height == height
        }),
        r is Err <==> consensus_proof@.len() == 0,
{
    let stamped = match ConsensusProof::new(consensus_proof, height) {
        Ok(c) => c,
        Err(e) => {
            return Err(e);
        },
    };
    Ok(
        ProofBundle {
            object_proof: connection_proof,
            client_proof: Some(client_proof),
            consensus_proof: Some(stamped),
            other_proof: None,
            height,
        },
    )
}

} // verus!
