//! The five handshake message variants.
//!
//! Each variant is a flat, immutable record of primitives and opaque blobs:
//! built eagerly from rich protocol objects, serialized into the flat binary
//! container, and read back lazily, one field at a time.  Accessors are
//! side-effect-free, decode their own field only, and surface every decode
//! failure as a typed error; absence of an optional field is a distinct,
//! non-error outcome.

use vstd::prelude::*;

use crate::bundle::{assemble_proofs, CommitmentProofBytes, ProofBundle};
use crate::duration::Duration;
use crate::error::Error;
use crate::height::Height;
use crate::id::{lemma_valid_identifier_wire, valid_identifier, ClientId, ConnectionId};
use crate::object::{
    any_parse, counterparty_parse, merkle_proof_parses, version_parse, CanonicalEncoding,
    ClientState, ConsensusState, Counterparty, Header, MerkleProofData, Version,
};
use crate::wire::{
    bytes_wf, des_bytes, des_opt_string, des_string, des_u32, des_u64, des_vec_bytes,
    lemma_prefix_at_concat, lemma_prefix_at_whole, lemma_ser_bytes_prefix_det,
    lemma_ser_opt_string_prefix_det, lemma_ser_string_prefix_det, lemma_ser_u32_prefix_det,
    lemma_ser_u64_prefix_det, lemma_ser_vec_bytes_prefix_det, opt_string_wf, prefix_at, ser_bytes,
    ser_opt_string, ser_string, ser_u32, ser_u64, ser_vec_bytes, spec_ser_bytes,
    spec_ser_opt_string, spec_ser_string, spec_ser_u32, spec_ser_u64, spec_ser_vec_bytes,
    string_wf, vec_bytes_wf,
};

verus! {

fn trailing_error() -> (r: Error) {
    Error::DecodingError("trailing bytes after record".to_owned())
}

// ------------------------------------------------------------------
// Client creation
// ------------------------------------------------------------------

/// What a client-creation record abstractly holds.
#[verifier::ext_equal]
pub struct ClientCreationView {
    pub client_state: Seq<u8>,
    pub consensus_state: Seq<u8>,
}

/// States to create a new client.
#[derive(Debug, Clone, PartialEq, Eq)]
pub struct ClientCreationData {
    client_state: Vec<u8>,
    consensus_state: Vec<u8>,
}

impl View for ClientCreationData {
    type V = ClientCreationView;

    closed spec fn view(&self) -> ClientCreationView {
        ClientCreationView {
            client_state: self.client_state@,
            consensus_state: self.consensus_state@,
        }
    }
}

/// The container layout of a client-creation record.
pub open spec fn client_creation_wire(v: ClientCreationView) -> Seq<u8> {
    spec_ser_bytes(v.client_state) + spec_ser_bytes(v.consensus_state)
}

/// The record fits the container format.
pub open spec fn client_creation_wire_wf(v: ClientCreationView) -> bool {
    bytes_wf(v.client_state) && bytes_wf(v.consensus_state)
}

impl ClientCreationData {
    /// Build the record from live objects: each one is encoded eagerly and
    /// only its bytes are retained.
    pub fn new(client_state: ClientState, consensus_state: ConsensusState) -> (r:
        ClientCreationData)
        ensures
            r@.client_state == client_state.wire(),
            r@.consensus_state == consensus_state.wire(),
            any_parse(r@.client_state) == Some(client_state@),
            any_parse(r@.consensus_state) == Some(consensus_state@),
    {
        let cs = client_state.encode_vec();
        let ns = consensus_state.encode_vec();
        ClientCreationData { client_state: cs, consensus_state: ns }
    }

    /// Decode the stored client state.
    pub fn client_state(&self) -> (r: Result<ClientState, Error>)
        ensures
            r matches Ok(y) ==> any_parse(self@.client_state) == Some(y@),
            r is Err <==> any_parse(self@.client_state) is None,
    {
        ClientState::decode_vec(&self.client_state)
    }

    /// Decode the stored consensus state.
    pub fn consensus_state(&self) -> (r: Result<ConsensusState, Error>)
        ensures
            r matches Ok(y) ==> any_parse(self@.consensus_state) == Some(y@),
            r is Err <==> any_parse(self@.consensus_state) is None,
    {
        ConsensusState::decode_vec(&self.consensus_state)
    }

    /// Serialize the record into the flat transaction container.
    pub fn to_bytes(&self) -> (r: Vec<u8>)
        requires
            client_creation_wire_wf(self@),
        ensures
            r@ == client_creation_wire(self@),
    {
        let mut out: Vec<u8> = Vec::new();
        ser_bytes(&mut out, &self.client_state);
        ser_bytes(&mut out, &self.consensus_state);
        proof {
            assert(out@ =~= client_creation_wire(self@));
        }
        out
    }

    /// Deserialize a record from the container.  Exactly the full encodings
    /// of well-formed records are accepted; anything else is a typed error.
    pub fn from_bytes(bytes: &Vec<u8>) -> (r: Result<ClientCreationData, Error>)
        ensures
            r matches Ok(m) ==> client_creation_wire_wf(m@) && bytes@ == client_creation_wire(m@),
            forall|v: ClientCreationView|
                client_creation_wire_wf(v) && bytes@ == client_creation_wire(v) ==> (r matches Ok(
                    m,
                ) && m@ == v),
    {
        let t1 = match des_bytes(bytes, 0) {
            Ok(t) => t,
            Err(e) => {
                proof {
                    assert forall|v: ClientCreationView|
                        client_creation_wire_wf(v) && bytes@ == client_creation_wire(
                            v,
                        ) implies false by {
                        lemma_prefix_at_whole(bytes@);
                        lemma_prefix_at_concat(
                            bytes@,
                            0,
                            spec_ser_bytes(v.client_state),
                            spec_ser_bytes(v.consensus_state),
                        );
                    }
                }
                return Err(e);
            },
        };
        let t2 = match des_bytes(bytes, t1.1) {
            Ok(t) => t,
            Err(e) => {
                proof {
                    assert forall|v: ClientCreationView|
                        client_creation_wire_wf(v) && bytes@ == client_creation_wire(
                            v,
                        ) implies false by {
                        lemma_prefix_at_whole(bytes@);
                        lemma_prefix_at_concat(
                            bytes@,
                            0,
                            spec_ser_bytes(v.client_state),
                            spec_ser_bytes(v.consensus_state),
                        );
                        lemma_ser_bytes_prefix_det(bytes@, 0, v.client_state, t1.0@);
                    }
                }
                return Err(e);
            },
        };
        if t2.1 != bytes.len() {
            proof {
                assert forall|v: ClientCreationView|
                    client_creation_wire_wf(v) && bytes@ == client_creation_wire(
                        v,
                    ) implies false by {
                    lemma_prefix_at_whole(bytes@);
                    lemma_prefix_at_concat(
                        bytes@,
                        0,
                        spec_ser_bytes(v.client_state),
                        spec_ser_bytes(v.consensus_state),
                    );
                    lemma_ser_bytes_prefix_det(bytes@, 0, v.client_state, t1.0@);
                    lemma_ser_bytes_prefix_det(
                        bytes@,
                        t1.1 as int,
                        v.consensus_state,
                        t2.0@,
                    );
                }
            }
            return Err(trailing_error());
        }
        let m = ClientCreationData { client_state: t1.0, consensus_state: t2.0 };
        proof {
            assert(bytes@ =~= client_creation_wire(m@));
            assert forall|v: ClientCreationView|
                client_creation_wire_wf(v) && bytes@ == client_creation_wire(v) implies m@
                == v by {
                lemma_prefix_at_whole(bytes@);
                lemma_prefix_at_concat(
                    bytes@,
                    0,
                    spec_ser_bytes(v.client_state),
                    spec_ser_bytes(v.consensus_state),
                );
                lemma_ser_bytes_prefix_det(bytes@, 0, v.client_state, m@.client_state);
                lemma_ser_bytes_prefix_det(
                    bytes@,
                    spec_ser_bytes(m@.client_state).len() as int,
                    v.consensus_state,
                    m@.consensus_state,
                );
                assert(m@ =~= v);
            }
        }
        Ok(m)
    }
}

/// Round trip: reading the fields back from a freshly built client-creation
/// record yields objects equal to the construction inputs.
pub fn client_creation_round_trip(client_state: ClientState, consensus_state: ConsensusState) -> (r:
    (Result<ClientState, Error>, Result<ConsensusState, Error>))
    ensures
        r.0 matches Ok(y) && y@ == client_state@,
        r.1 matches Ok(y) && y@ == consensus_state@,
{
    let ghost cs = client_state@;
    let ghost ns = consensus_state@;
    let m = ClientCreationData::new(client_state, consensus_state);
    (m.client_state(), m.consensus_state())
}

// ------------------------------------------------------------------
// Client update
// ------------------------------------------------------------------

/// What a client-update record abstractly holds.
#[verifier::ext_equal]
pub struct ClientUpdateView {
    pub client_id: Seq<char>,
    pub headers: Seq<Seq<u8>>,
}

/// Data to update a client: the client to update and the ordered run of
/// headers to feed it.
#[derive(Debug, Clone, PartialEq, Eq)]
pub struct ClientUpdateData {
    client_id: String,
    headers: Vec<Vec<u8>>,
}

impl View for ClientUpdateData {
    type V = ClientUpdateView;

    closed spec fn view(&self) -> ClientUpdateView {
        ClientUpdateView { client_id: self.client_id@, headers: self.headers.deep_view() }
    }
}

/// The container layout of a client-update record.
pub open spec fn client_update_wire(v: ClientUpdateView) -> Seq<u8> {
    spec_ser_string(v.client_id) + spec_ser_vec_bytes(v.headers)
}

/// The record fits the container format.
pub open spec fn client_update_wire_wf(v: ClientUpdateView) -> bool {
    string_wf(v.client_id) && vec_bytes_wf(v.headers)
}

impl ClientUpdateData {
    /// Build the record: the identifier is stored raw, each header is
    /// encoded eagerly and only its bytes are retained, in order.
    pub fn new(client_id: ClientId, headers: Vec<Header>) -> (r: ClientUpdateData)
        ensures
            r@.client_id == client_id@,
            valid_identifier(r@.client_id),
            string_wf(r@.client_id),
            r@.headers.len() == headers@.len(),
            forall|i: int|
                0 <= i < headers@.len() ==> #[trigger] r@.headers[i] == headers@[i].wire()
                    && any_parse(r@.headers[i]) == Some(headers@[i]@),
    {
        let cid = client_id.into_string();
        proof {
            lemma_valid_identifier_wire(cid@);
        }
        let mut hs: Vec<Vec<u8>> = Vec::new();
        let n = headers.len();
        let mut i: usize = 0;
        while i < n
            invariant
                n == headers@.len(),
                i <= n,
                hs@.len() == i,
                forall|j: int|
                    0 <= j < i ==> #[trigger] hs@[j]@ == headers@[j].wire() && any_parse(hs@[j]@)
                        == Some(headers@[j]@),
            decreases n - i,
        {
            let e = headers[i].encode_vec();
            hs.push(e);
            i = i + 1;
        }
        let r = ClientUpdateData { client_id: cid, headers: hs };
        proof {
            assert(forall|j: int| 0 <= j < n ==> #[trigger] r@.headers[j] == hs@[j]@);
        }
        r
    }

    /// Parse the stored client identifier.
    pub fn client_id(&self) -> (r: Result<ClientId, Error>)
        ensures
            r matches Ok(id) ==> id@ == self@.client_id && valid_identifier(self@.client_id),
            r is Err <==> !valid_identifier(self@.client_id),
    {
        ClientId::from_string(self.client_id.clone())
    }

    /// Decode every stored header, in order.  One malformed header fails the
    /// whole read.
    pub fn headers(&self) -> (r: Result<Vec<Header>, Error>)
        ensures
            r matches Ok(v) ==> v@.len() == self@.headers.len() && forall|i: int|
                0 <= i < v@.len() ==> any_parse(#[trigger] self@.headers[i]) == Some(v@[i]@),
            r is Err <==> exists|i: int|
                0 <= i < self@.headers.len() && any_parse(#[trigger] self@.headers[i]) is None,
    {
        let mut out: Vec<Header> = Vec::new();
        let n = self.headers.len();
        let mut i: usize = 0;
        while i < n
            invariant
                n == self.headers@.len(),
                n == self@.headers.len(),
                i <= n,
                out@.len() == i,
                forall|j: int|
                    0 <= j < i ==> any_parse(#[trigger] self@.headers[j]) == Some(out@[j]@),
            decreases n - i,
        {
            proof {
                assert(self@.headers[i as int] == self.headers@[i as int]@);
            }
            match Header::decode_vec(&self.headers[i]) {
                Ok(h) => {
                    out.push(h);
                },
                Err(e) => {
                    proof {
                        assert(any_parse(self@.headers[i as int]) is None);
                    }
                    return Err(e);
                },
            }
            i = i + 1;
        }
        Ok(out)
    }

    /// Serialize the record into the flat transaction container.
    pub fn to_bytes(&self) -> (r: Vec<u8>)
        requires
            client_update_wire_wf(self@),
        ensures
            r@ == client_update_wire(self@),
    {
        let mut out: Vec<u8> = Vec::new();
        ser_string(&mut out, &self.client_id);
        ser_vec_bytes(&mut out, &self.headers);
        proof {
            assert(out@ =~= client_update_wire(self@));
        }
        out
    }

    /// Deserialize a record from the container.  Exactly the full encodings
    /// of well-formed records are accepted; anything else is a typed error.
    pub fn from_bytes(bytes: &Vec<u8>) -> (r: Result<ClientUpdateData, Error>)
        ensures
            r matches Ok(m) ==> client_update_wire_wf(m@) && bytes@ == client_update_wire(m@),
            forall|v: ClientUpdateView|
                client_update_wire_wf(v) && bytes@ == client_update_wire(v) ==> (r matches Ok(m)
                    && m@ == v),
    {
        let t1 = match des_string(bytes, 0) {
            Ok(t) => t,
            Err(e) => {
                proof {
                    assert forall|v: ClientUpdateView|
                        client_update_wire_wf(v) && bytes@ == client_update_wire(
                            v,
                        ) implies false by {
                        lemma_prefix_at_whole(bytes@);
                        lemma_prefix_at_concat(
                            bytes@,
                            0,
                            spec_ser_string(v.client_id),
                            spec_ser_vec_bytes(v.headers),
                        );
                    }
                }
                return Err(e);
            },
        };
        let t2 = match des_vec_bytes(bytes, t1.1) {
            Ok(t) => t,
            Err(e) => {
                proof {
                    assert forall|v: ClientUpdateView|
                        client_update_wire_wf(v) && bytes@ == client_update_wire(
                            v,
                        ) implies false by {
                        lemma_prefix_at_whole(bytes@);
                        lemma_prefix_at_concat(
                            bytes@,
                            0,
                            spec_ser_string(v.client_id),
                            spec_ser_vec_bytes(v.headers),
                        );
                        lemma_ser_string_prefix_det(bytes@, 0, v.client_id, t1.0@);
                    }
                }
                return Err(e);
            },
        };
        if t2.1 != bytes.len() {
            proof {
                assert forall|v: ClientUpdateView|
                    client_update_wire_wf(v) && bytes@ == client_update_wire(v) implies false by {
                    lemma_prefix_at_whole(bytes@);
                    lemma_prefix_at_concat(
                        bytes@,
                        0,
                        spec_ser_string(v.client_id),
                        spec_ser_vec_bytes(v.headers),
                    );
                    lemma_ser_string_prefix_det(bytes@, 0, v.client_id, t1.0@);
                    lemma_ser_vec_bytes_prefix_det(
                        bytes@,
                        t1.1 as int,
                        v.headers,
                        t2.0.deep_view(),
                    );
                }
            }
            return Err(trailing_error());
        }
        let m = ClientUpdateData { client_id: t1.0, headers: t2.0 };
        proof {
            assert(bytes@ =~= client_update_wire(m@));
            assert forall|v: ClientUpdateView|
                client_update_wire_wf(v) && bytes@ == client_update_wire(v) implies m@ == v by {
                lemma_prefix_at_whole(bytes@);
                lemma_prefix_at_concat(
                    bytes@,
                    0,
                    spec_ser_string(v.client_id),
                    spec_ser_vec_bytes(v.headers),
                );
                lemma_ser_string_prefix_det(bytes@, 0, v.client_id, m@.client_id);
                lemma_ser_vec_bytes_prefix_det(
                    bytes@,
                    spec_ser_string(m@.client_id).len() as int,
                    v.headers,
                    m@.headers,
                );
                assert(m@ =~= v);
            }
        }
        Ok(m)
    }
}

/// Round trip: reading the fields back from a freshly built client-update
/// record yields the client identifier and headers it was built from.
pub fn client_update_round_trip(client_id: ClientId, headers: Vec<Header>) -> (r: (
    Result<ClientId, Error>,
    Result<Vec<Header>, Error>,
))
    ensures
        r.0 matches Ok(y) && y@ == client_id@,
        r.1 matches Ok(v) && v@.len() == headers@.len() && forall|i: int|
            0 <= i < headers@.len() ==> v@[i]@ == #[trigger] headers@[i]@,
{
    let m = ClientUpdateData::new(client_id, headers);
    let rid = m.client_id();
    let rhs = m.headers();
    proof {
        if rhs is Err {
            let i = choose|i: int|
                0 <= i < m@.headers.len() && any_parse(#[trigger] m@.headers[i]) is None;
            assert(m@.headers[i] == headers@[i].wire());
            assert(any_parse(m@.headers[i]) == Some(headers@[i]@));
        }
        let v = rhs->Ok_0;
        assert forall|i: int| 0 <= i < headers@.len() implies v@[i]@ == #[trigger] headers@[i]@ by {
            assert(m@.headers[i] == headers@[i].wire());
            assert(any_parse(m@.headers[i]) == Some(headers@[i]@));
            assert(any_parse(m@.headers[i]) == Some(v@[i]@));
        }
    }
    (rid, rhs)
}

// ------------------------------------------------------------------
// Client upgrade
// ------------------------------------------------------------------

/// What a client-upgrade record abstractly holds.
#[verifier::ext_equal]
pub struct ClientUpgradeView {
    pub client_id: Seq<char>,
    pub client_state: Seq<u8>,
    pub consensus_state: Seq<u8>,
    pub proof_client: Seq<u8>,
    pub proof_consensus_state: Seq<u8>,
}

/// Data to upgrade a client: the upgraded states and the proofs for them.
#[derive(Debug, Clone, PartialEq, Eq)]
pub struct ClientUpgradeData {
    client_id: String,
    client_state: Vec<u8>,
    consensus_state: Vec<u8>,
    proof_client: Vec<u8>,
    proof_consensus_state: Vec<u8>,
}

impl View for ClientUpgradeData {
    type V = ClientUpgradeView;

    closed spec fn view(&self) -> ClientUpgradeView {
        ClientUpgradeView {
            client_id: self.client_id@,
            client_state: self.client_state@,
            consensus_state: self.consensus_state@,
            proof_client: self.proof_client@,
            proof_consensus_state: self.proof_consensus_state@,
        }
    }
}

pub open spec fn cu_off1(v: ClientUpgradeView) -> int {
    spec_ser_string(v.client_id).len() as int
}

pub open spec fn cu_off2(v: ClientUpgradeView) -> int {
    cu_off1(v) + spec_ser_bytes(v.client_state).len()
}

pub open spec fn cu_off3(v: ClientUpgradeView) -> int {
    cu_off2(v) + spec_ser_bytes(v.consensus_state).len()
}

pub open spec fn cu_off4(v: ClientUpgradeView) -> int {
    cu_off3(v) + spec_ser_bytes(v.proof_client).len()
}

/// The container layout of a client-upgrade record.
pub open spec fn client_upgrade_wire(v: ClientUpgradeView) -> Seq<u8> {
    spec_ser_string(v.client_id) + (spec_ser_bytes(v.client_state) + (spec_ser_bytes(
        v.consensus_state,
    ) + (spec_ser_bytes(v.proof_client) + spec_ser_bytes(v.proof_consensus_state))))
}

/// The record fits the container format.
pub open spec fn client_upgrade_wire_wf(v: ClientUpgradeView) -> bool {
    &&& string_wf(v.client_id)
    &&& bytes_wf(v.client_state)
    &&& bytes_wf(v.consensus_state)
    &&& bytes_wf(v.proof_client)
    &&& bytes_wf(v.proof_consensus_state)
}

proof fn lemma_client_upgrade_parts(s: Seq<u8>, v: ClientUpgradeView)
    requires
        prefix_at(s, 0, client_upgrade_wire(v)),
    ensures
        prefix_at(s, 0, spec_ser_string(v.client_id)),
        prefix_at(s, cu_off1(v), spec_ser_bytes(v.client_state)),
        prefix_at(s, cu_off2(v), spec_ser_bytes(v.consensus_state)),
        prefix_at(s, cu_off3(v), spec_ser_bytes(v.proof_client)),
        prefix_at(s, cu_off4(v), spec_ser_bytes(v.proof_consensus_state)),
{
    lemma_prefix_at_concat(
        s,
        0,
        spec_ser_string(v.client_id),
        spec_ser_bytes(v.client_state) + (spec_ser_bytes(v.consensus_state) + (spec_ser_bytes(
            v.proof_client,
        ) + spec_ser_bytes(v.proof_consensus_state))),
    );
    lemma_prefix_at_concat(
        s,
        cu_off1(v),
        spec_ser_bytes(v.client_state),
        spec_ser_bytes(v.consensus_state) + (spec_ser_bytes(v.proof_client) + spec_ser_bytes(
            v.proof_consensus_state,
        )),
    );
    lemma_prefix_at_concat(
        s,
        cu_off2(v),
        spec_ser_bytes(v.consensus_state),
        spec_ser_bytes(v.proof_client) + spec_ser_bytes(v.proof_consensus_state),
    );
    lemma_prefix_at_concat(
        s,
        cu_off3(v),
        spec_ser_bytes(v.proof_client),
        spec_ser_bytes(v.proof_consensus_state),
    );
}

impl ClientUpgradeData {
    /// Build the record from the upgraded states and the pre-formed proof
    /// bytes for them.
    pub fn new(
        client_id: ClientId,
        client_state: ClientState,
        consensus_state: ConsensusState,
        proof_client: Vec<u8>,
        proof_consensus_state: Vec<u8>,
    ) -> (r: ClientUpgradeData)
        ensures
            r@.client_id == client_id@,
            valid_identifier(r@.client_id),
            string_wf(r@.client_id),
            r@.client_state == client_state.wire(),
            any_parse(r@.client_state) == Some(client_state@),
            r@.consensus_state == consensus_state.wire(),
            any_parse(r@.consensus_state) == Some(consensus_state@),
            r@.proof_client == proof_client@,
            r@.proof_consensus_state == proof_consensus_state@,
    {
        let cid = client_id.into_string();
        proof {
            lemma_valid_identifier_wire(cid@);
        }
        let cs = client_state.encode_vec();
        let ns = consensus_state.encode_vec();
        ClientUpgradeData {
            client_id: cid,
            client_state: cs,
            consensus_state: ns,
            proof_client,
            proof_consensus_state,
        }
    }

    /// Parse the stored client identifier.
    pub fn client_id(&self) -> (r: Result<ClientId, Error>)
        ensures
            r matches Ok(id) ==> id@ == self@.client_id && valid_identifier(self@.client_id),
            r is Err <==> !valid_identifier(self@.client_id),
    {
        ClientId::from_string(self.client_id.clone())
    }

    /// Decode the stored client state.
    pub fn client_state(&self) -> (r: Result<ClientState, Error>)
        ensures
            r matches Ok(y) ==> any_parse(self@.client_state) == Some(y@),
            r is Err <==> any_parse(self@.client_state) is None,
    {
        ClientState::decode_vec(&self.client_state)
    }

    /// Decode the stored consensus state.
    pub fn consensus_state(&self) -> (r: Result<ConsensusState, Error>)
        ensures
            r matches Ok(y) ==> any_parse(self@.consensus_state) == Some(y@),
            r is Err <==> any_parse(self@.consensus_state) is None,
    {
        ConsensusState::decode_vec(&self.consensus_state)
    }

    /// Validate and hand out the stored client-state proof.
    pub fn proof_client(&self) -> (r: Result<MerkleProofData, Error>)
        ensures
            r matches Ok(p) ==> p@ == self@.proof_client && merkle_proof_parses(
                self@.proof_client,
            ),
            r is Err <==> !merkle_proof_parses(self@.proof_client),
    {
        MerkleProofData::from_bytes(self.proof_client.clone())
    }

    /// Validate and hand out the stored consensus-state proof.
    pub fn proof_consensus_state(&self) -> (r: Result<MerkleProofData, Error>)
        ensures
            r matches Ok(p) ==> p@ == self@.proof_consensus_state && merkle_proof_parses(
                self@.proof_consensus_state,
            ),
            r is Err <==> !merkle_proof_parses(self@.proof_consensus_state),
    {
        MerkleProofData::from_bytes(self.proof_consensus_state.clone())
    }

    /// Serialize the record into the flat transaction container.
    pub fn to_bytes(&self) -> (r: Vec<u8>)
        requires
            client_upgrade_wire_wf(self@),
        ensures
            r@ == client_upgrade_wire(self@),
    {
        let mut out: Vec<u8> = Vec::new();
        ser_string(&mut out, &self.client_id);
        ser_bytes(&mut out, &self.client_state);
        ser_bytes(&mut out, &self.consensus_state);
        ser_bytes(&mut out, &self.proof_client);
        ser_bytes(&mut out, &self.proof_consensus_state);
        proof {
            assert(out@ =~= client_upgrade_wire(self@));
        }
        out
    }

    /// Deserialize a record from the container.  Exactly the full encodings
    /// of well-formed records are accepted; anything else is a typed error.
    pub fn from_bytes(bytes: &Vec<u8>) -> (r: Result<ClientUpgradeData, Error>)
        ensures
            r matches Ok(m) ==> client_upgrade_wire_wf(m@) && bytes@ == client_upgrade_wire(m@),
            forall|v: ClientUpgradeView|
                client_upgrade_wire_wf(v) && bytes@ == client_upgrade_wire(v) ==> (r matches Ok(m)
                    && m@ == v),
    {
        let t1 = match des_string(bytes, 0) {
            Ok(t) => t,
            Err(e) => {
                proof {
                    assert forall|v: ClientUpgradeView|
                        client_upgrade_wire_wf(v) && bytes@ == client_upgrade_wire(
                            v,
                        ) implies false by {
                        lemma_prefix_at_whole(bytes@);
                        lemma_client_upgrade_parts(bytes@, v);
                    }
                }
                return Err(e);
            },
        };
        let t2 = match des_bytes(bytes, t1.1) {
            Ok(t) => t,
            Err(e) => {
                proof {
                    assert forall|v: ClientUpgradeView|
                        client_upgrade_wire_wf(v) && bytes@ == client_upgrade_wire(
                            v,
                        ) implies false by {
                        lemma_prefix_at_whole(bytes@);
                        lemma_client_upgrade_parts(bytes@, v);
                        lemma_ser_string_prefix_det(bytes@, 0, v.client_id, t1.0@);
                    }
                }
                return Err(e);
            },
        };
        let t3 = match des_bytes(bytes, t2.1) {
            Ok(t) => t,
            Err(e) => {
                proof {
                    assert forall|v: ClientUpgradeView|
                        client_upgrade_wire_wf(v) && bytes@ == client_upgrade_wire(
                            v,
                        ) implies false by {
                        lemma_prefix_at_whole(bytes@);
                        lemma_client_upgrade_parts(bytes@, v);
                        lemma_ser_string_prefix_det(bytes@, 0, v.client_id, t1.0@);
                        lemma_ser_bytes_prefix_det(bytes@, t1.1 as int, v.client_state, t2.0@);
                    }
                }
                return Err(e);
            },
        };
        let t4 = match des_bytes(bytes, t3.1) {
            Ok(t) => t,
            Err(e) => {
                proof {
                    assert forall|v: ClientUpgradeView|
                        client_upgrade_wire_wf(v) && bytes@ == client_upgrade_wire(
                            v,
                        ) implies false by {
                        lemma_prefix_at_whole(bytes@);
                        lemma_client_upgrade_parts(bytes@, v);
                        lemma_ser_string_prefix_det(bytes@, 0, v.client_id, t1.0@);
                        lemma_ser_bytes_prefix_det(bytes@, t1.1 as int, v.client_state, t2.0@);
                        lemma_ser_bytes_prefix_det(bytes@, t2.1 as int, v.consensus_state, t3.0@);
                    }
                }
                return Err(e);
            },
        };
        let t5 = match des_bytes(bytes, t4.1) {
            Ok(t) => t,
            Err(e) => {
                proof {
                    assert forall|v: ClientUpgradeView|
                        client_upgrade_wire_wf(v) && bytes@ == client_upgrade_wire(
                            v,
                        ) implies false by {
                        lemma_prefix_at_whole(bytes@);
                        lemma_client_upgrade_parts(bytes@, v);
                        lemma_ser_string_prefix_det(bytes@, 0, v.client_id, t1.0@);
                        lemma_ser_bytes_prefix_det(bytes@, t1.1 as int, v.client_state, t2.0@);
                        lemma_ser_bytes_prefix_det(bytes@, t2.1 as int, v.consensus_state, t3.0@);
                        lemma_ser_bytes_prefix_det(bytes@, t3.1 as int, v.proof_client, t4.0@);
                    }
                }
                return Err(e);
            },
        };
        if t5.1 != bytes.len() {
            proof {
                assert forall|v: ClientUpgradeView|
                    client_upgrade_wire_wf(v) && bytes@ == client_upgrade_wire(v) implies false by {
                    lemma_prefix_at_whole(bytes@);
                    lemma_client_upgrade_parts(bytes@, v);
                    lemma_ser_string_prefix_det(bytes@, 0, v.client_id, t1.0@);
                    lemma_ser_bytes_prefix_det(bytes@, t1.1 as int, v.client_state, t2.0@);
                    lemma_ser_bytes_prefix_det(bytes@, t2.1 as int, v.consensus_state, t3.0@);
                    lemma_ser_bytes_prefix_det(bytes@, t3.1 as int, v.proof_client, t4.0@);
                    lemma_ser_bytes_prefix_det(bytes@, t4.1 as int, v.proof_consensus_state, t5.0@);
                }
            }
            return Err(trailing_error());
        }
        let m = ClientUpgradeData {
            client_id: t1.0,
            client_state: t2.0,
            consensus_state: t3.0,
            proof_client: t4.0,
            proof_consensus_state: t5.0,
        };
        proof {
            assert(bytes@ =~= client_upgrade_wire(m@));
            assert forall|v: ClientUpgradeView|
                client_upgrade_wire_wf(v) && bytes@ == client_upgrade_wire(v) implies m@ == v by {
                lemma_prefix_at_whole(bytes@);
                lemma_client_upgrade_parts(bytes@, v);
                lemma_ser_string_prefix_det(bytes@, 0, v.client_id, m@.client_id);
                lemma_ser_bytes_prefix_det(bytes@, t1.1 as int, v.client_state, m@.client_state);
                lemma_ser_bytes_prefix_det(
                    bytes@,
                    t2.1 as int,
                    v.consensus_state,
                    m@.consensus_state,
                );
                lemma_ser_bytes_prefix_det(bytes@, t3.1 as int, v.proof_client, m@.proof_client);
                lemma_ser_bytes_prefix_det(
                    bytes@,
                    t4.1 as int,
                    v.proof_consensus_state,
                    m@.proof_consensus_state,
                );
                assert(m@ =~= v);
            }
        }
        Ok(m)
    }
}

/// Round trip: reading the fields back from a freshly built client-upgrade
/// record yields the inputs, with the proof fields handed back verbatim
/// whenever their bytes parse as proofs.
pub fn client_upgrade_round_trip(
    client_id: ClientId,
    client_state: ClientState,
    consensus_state: ConsensusState,
    proof_client: Vec<u8>,
    proof_consensus_state: Vec<u8>,
) -> (r: (Result<ClientId, Error>, Result<ClientState, Error>, Result<ConsensusState, Error>))
    ensures
        r.0 matches Ok(y) && y@ == client_id@,
        r.1 matches Ok(y) && y@ == client_state@,
        r.2 matches Ok(y) && y@ == consensus_state@,
{
    let m = ClientUpgradeData::new(
        client_id,
        client_state,
        consensus_state,
        proof_client,
        proof_consensus_state,
    );
    (m.client_id(), m.client_state(), m.consensus_state())
}

// ------------------------------------------------------------------
// Connection open-init
// ------------------------------------------------------------------

/// What a connection-open-init record abstractly holds.
#[verifier::ext_equal]
pub struct OpenInitView {
    pub client_id: Seq<char>,
    pub counterparty: Seq<u8>,
    pub version: Seq<u8>,
    pub delay_period: Duration,
}

/// Data to initialize a connection.
#[derive(Debug, Clone, PartialEq, Eq)]
pub struct ConnectionOpenInitData {
    client_id: String,
    counterparty: Vec<u8>,
    version: Vec<u8>,
    delay_period: Duration,
}

impl View for ConnectionOpenInitData {
    type V = OpenInitView;

    closed spec fn view(&self) -> OpenInitView {
        OpenInitView {
            client_id: self.client_id@,
            counterparty: self.counterparty@,
            version: self.version@,
            delay_period: self.delay_period,
        }
    }
}

pub open spec fn oi_off1(v: OpenInitView) -> int {
    spec_ser_string(v.client_id).len() as int
}

pub open spec fn oi_off2(v: OpenInitView) -> int {
    oi_off1(v) + spec_ser_bytes(v.counterparty).len()
}

pub open spec fn oi_off3(v: OpenInitView) -> int {
    oi_off2(v) + spec_ser_bytes(v.version).len()
}

pub open spec fn oi_off4(v: OpenInitView) -> int {
    oi_off3(v) + 8
}

/// The container layout of a connection-open-init record.
pub open spec fn open_init_wire(v: OpenInitView) -> Seq<u8> {
    spec_ser_string(v.client_id) + (spec_ser_bytes(v.counterparty) + (spec_ser_bytes(v.version) + (
    spec_ser_u64(v.delay_period.secs) + spec_ser_u32(v.delay_period.nanos))))
}

/// The record fits the container format.
pub open spec fn open_init_wire_wf(v: OpenInitView) -> bool {
    &&& string_wf(v.client_id)
    &&& bytes_wf(v.counterparty)
    &&& bytes_wf(v.version)
}

proof fn lemma_open_init_parts(s: Seq<u8>, v: OpenInitView)
    requires
        prefix_at(s, 0, open_init_wire(v)),
    ensures
        prefix_at(s, 0, spec_ser_string(v.client_id)),
        prefix_at(s, oi_off1(v), spec_ser_bytes(v.counterparty)),
        prefix_at(s, oi_off2(v), spec_ser_bytes(v.version)),
        prefix_at(s, oi_off3(v), spec_ser_u64(v.delay_period.secs)),
        prefix_at(s, oi_off4(v), spec_ser_u32(v.delay_period.nanos)),
{
    lemma_prefix_at_concat(
        s,
        0,
        spec_ser_string(v.client_id),
        spec_ser_bytes(v.counterparty) + (spec_ser_bytes(v.version) + (spec_ser_u64(
            v.delay_period.secs,
        ) + spec_ser_u32(v.delay_period.nanos))),
    );
    lemma_prefix_at_concat(
        s,
        oi_off1(v),
        spec_ser_bytes(v.counterparty),
        spec_ser_bytes(v.version) + (spec_ser_u64(v.delay_period.secs) + spec_ser_u32(
            v.delay_period.nanos,
        )),
    );
    lemma_prefix_at_concat(
        s,
        oi_off2(v),
        spec_ser_bytes(v.version),
        spec_ser_u64(v.delay_period.secs) + spec_ser_u32(v.delay_period.nanos),
    );
    lemma_prefix_at_concat(
        s,
        oi_off3(v),
        spec_ser_u64(v.delay_period.secs),
        spec_ser_u32(v.delay_period.nanos),
    );
}

impl ConnectionOpenInitData {
    /// Build the record from live objects: the counterparty and version are
    /// encoded eagerly, the identifier is stored raw, the delay is kept as
    /// its two components.
    pub fn new(
        client_id: ClientId,
        counterparty: Counterparty,
        version: Version,
        delay_period: Duration,
    ) -> (r: ConnectionOpenInitData)
        ensures
            r@.client_id == client_id@,
            valid_identifier(r@.client_id),
            string_wf(r@.client_id),
            r@.counterparty == counterparty.wire(),
            counterparty_parse(r@.counterparty) == Some(counterparty@),
            r@.version == version.wire(),
            version_parse(r@.version) == Some(version@),
            r@.delay_period == delay_period,
    {
        let cid = client_id.into_string();
        proof {
            lemma_valid_identifier_wire(cid@);
        }
        let cp = counterparty.encode_vec();
        let ver = version.encode_vec();
        ConnectionOpenInitData { client_id: cid, counterparty: cp, version: ver, delay_period }
    }

    /// Parse the stored client identifier.
    pub fn client_id(&self) -> (r: Result<ClientId, Error>)
        ensures
            r matches Ok(id) ==> id@ == self@.client_id && valid_identifier(self@.client_id),
            r is Err <==> !valid_identifier(self@.client_id),
    {
        ClientId::from_string(self.client_id.clone())
    }

    /// Decode the stored counterparty descriptor.
    pub fn counterparty(&self) -> (r: Result<Counterparty, Error>)
        ensures
            r matches Ok(y) ==> counterparty_parse(self@.counterparty) == Some(y@),
            r is Err <==> counterparty_parse(self@.counterparty) is None,
    {
        Counterparty::decode_vec(&self.counterparty)
    }

    /// Decode the stored version.
    pub fn version(&self) -> (r: Result<Version, Error>)
        ensures
            r matches Ok(y) ==> version_parse(self@.version) == Some(y@),
            r is Err <==> version_parse(self@.version) is None,
    {
        Version::decode_vec(&self.version)
    }

    /// The delay period, exactly as stored.
    pub fn delay_period(&self) -> (r: Duration)
        ensures
            r == self@.delay_period,
    {
        self.delay_period
    }

    /// Serialize the record into the flat transaction container.
    pub fn to_bytes(&self) -> (r: Vec<u8>)
        requires
            open_init_wire_wf(self@),
        ensures
            r@ == open_init_wire(self@),
    {
        let mut out: Vec<u8> = Vec::new();
        ser_string(&mut out, &self.client_id);
        ser_bytes(&mut out, &self.counterparty);
        ser_bytes(&mut out, &self.version);
        ser_u64(&mut out, self.delay_period.secs);
        ser_u32(&mut out, self.delay_period.nanos);
        proof {
            assert(out@ =~= open_init_wire(self@));
        }
        out
    }

    /// Deserialize a record from the container.  Exactly the full encodings
    /// of well-formed records are accepted; anything else is a typed error.
    pub fn from_bytes(bytes: &Vec<u8>) -> (r: Result<ConnectionOpenInitData, Error>)
        ensures
            r matches Ok(m) ==> open_init_wire_wf(m@) && bytes@ == open_init_wire(m@),
            forall|v: OpenInitView|
                open_init_wire_wf(v) && bytes@ == open_init_wire(v) ==> (r matches Ok(m) && m@
                    == v),
    {
        let t1 = match des_string(bytes, 0) {
            Ok(t) => t,
            Err(e) => {
                proof {
                    assert forall|v: OpenInitView|
                        open_init_wire_wf(v) && bytes@ == open_init_wire(v) implies false by {
                        lemma_prefix_at_whole(bytes@);
                        lemma_open_init_parts(bytes@, v);
                    }
                }
                return Err(e);
            },
        };
        let t2 = match des_bytes(bytes, t1.1) {
            Ok(t) => t,
            Err(e) => {
                proof {
                    assert forall|v: OpenInitView|
                        open_init_wire_wf(v) && bytes@ == open_init_wire(v) implies false by {
                        lemma_prefix_at_whole(bytes@);
                        lemma_open_init_parts(bytes@, v);
                        lemma_ser_string_prefix_det(bytes@, 0, v.client_id, t1.0@);
                    }
                }
                return Err(e);
            },
        };
        let t3 = match des_bytes(bytes, t2.1) {
            Ok(t) => t,
            Err(e) => {
                proof {
                    assert forall|v: OpenInitView|
                        open_init_wire_wf(v) && bytes@ == open_init_wire(v) implies false by {
                        lemma_prefix_at_whole(bytes@);
                        lemma_open_init_parts(bytes@, v);
                        lemma_ser_string_prefix_det(bytes@, 0, v.client_id, t1.0@);
                        lemma_ser_bytes_prefix_det(bytes@, t1.1 as int, v.counterparty, t2.0@);
                    }
                }
                return Err(e);
            },
        };
        let t4 = match des_u64(bytes, t3.1) {
            Ok(t) => t,
            Err(e) => {
                proof {
                    assert forall|v: OpenInitView|
                        open_init_wire_wf(v) && bytes@ == open_init_wire(v) implies false by {
                        lemma_prefix_at_whole(bytes@);
                        lemma_open_init_parts(bytes@, v);
                        lemma_ser_string_prefix_det(bytes@, 0, v.client_id, t1.0@);
                        lemma_ser_bytes_prefix_det(bytes@, t1.1 as int, v.counterparty, t2.0@);
                        lemma_ser_bytes_prefix_det(bytes@, t2.1 as int, v.version, t3.0@);
                    }
                }
                return Err(e);
            },
        };
        let t5 = match des_u32(bytes, t4.1) {
            Ok(t) => t,
            Err(e) => {
                proof {
                    assert forall|v: OpenInitView|
                        open_init_wire_wf(v) && bytes@ == open_init_wire(v) implies false by {
                        lemma_prefix_at_whole(bytes@);
                        lemma_open_init_parts(bytes@, v);
                        lemma_ser_string_prefix_det(bytes@, 0, v.client_id, t1.0@);
                        lemma_ser_bytes_prefix_det(bytes@, t1.1 as int, v.counterparty, t2.0@);
                        lemma_ser_bytes_prefix_det(bytes@, t2.1 as int, v.version, t3.0@);
                        lemma_ser_u64_prefix_det(bytes@, t3.1 as int, v.delay_period.secs, t4.0);
                    }
                }
                return Err(e);
            },
        };
        if t5.1 != bytes.len() {
            proof {
                assert forall|v: OpenInitView|
                    open_init_wire_wf(v) && bytes@ == open_init_wire(v) implies false by {
                    lemma_prefix_at_whole(bytes@);
                    lemma_open_init_parts(bytes@, v);
                    lemma_ser_string_prefix_det(bytes@, 0, v.client_id, t1.0@);
                    lemma_ser_bytes_prefix_det(bytes@, t1.1 as int, v.counterparty, t2.0@);
                    lemma_ser_bytes_prefix_det(bytes@, t2.1 as int, v.version, t3.0@);
                    lemma_ser_u64_prefix_det(bytes@, t3.1 as int, v.delay_period.secs, t4.0);
                    lemma_ser_u32_prefix_det(bytes@, t4.1 as int, v.delay_period.nanos, t5.0);
                }
            }
            return Err(trailing_error());
        }
        let m = ConnectionOpenInitData {
            client_id: t1.0,
            counterparty: t2.0,
            version: t3.0,
            delay_period: Duration { secs: t4.0, nanos: t5.0 },
        };
        proof {
            assert(bytes@ =~= open_init_wire(m@));
            assert forall|v: OpenInitView|
                open_init_wire_wf(v) && bytes@ == open_init_wire(v) implies m@ == v by {
                lemma_prefix_at_whole(bytes@);
                lemma_open_init_parts(bytes@, v);
                lemma_ser_string_prefix_det(bytes@, 0, v.client_id, m@.client_id);
                lemma_ser_bytes_prefix_det(bytes@, t1.1 as int, v.counterparty, m@.counterparty);
                lemma_ser_bytes_prefix_det(bytes@, t2.1 as int, v.version, m@.version);
                lemma_ser_u64_prefix_det(bytes@, t3.1 as int, v.delay_period.secs, t4.0);
                lemma_ser_u32_prefix_det(bytes@, t4.1 as int, v.delay_period.nanos, t5.0);
                assert(m@ =~= v);
            }
        }
        Ok(m)
    }
}

/// Round trip: reading the fields back from a freshly built open-init record
/// yields the objects and delay it was built from.
pub fn open_init_round_trip(
    client_id: ClientId,
    counterparty: Counterparty,
    version: Version,
    delay_period: Duration,
) -> (r: (Result<ClientId, Error>, Result<Counterparty, Error>, Result<Version, Error>, Duration))
    ensures
        r.0 matches Ok(y) && y@ == client_id@,
        r.1 matches Ok(y) && y@ == counterparty@,
        r.2 matches Ok(y) && y@ == version@,
        r.3 == delay_period,
{
    let m = ConnectionOpenInitData::new(client_id, counterparty, version, delay_period);
    (m.client_id(), m.counterparty(), m.version(), m.delay_period())
}

// ------------------------------------------------------------------
// Connection open-try
// ------------------------------------------------------------------

/// What a connection-open-try record abstractly holds.
#[verifier::ext_equal]
pub struct OpenTryView {
    pub prev_conn_id: Option<Seq<char>>,
    pub client_id: Seq<char>,
    pub client_state: Seq<u8>,
    pub counterparty: Seq<u8>,
    pub counterparty_versions: Seq<Seq<u8>>,
    pub proof_height: Height,
    pub proof_connection: Seq<u8>,
    pub proof_client: Seq<u8>,
    pub proof_consensus: Seq<u8>,
    pub delay_period: Duration,
}

/// Data to try to open a connection.
#[derive(Debug, Clone, PartialEq, Eq)]
pub struct ConnectionOpenTryData {
    prev_conn_id: Option<String>,
    client_id: String,
    client_state: Vec<u8>,
    counterparty: Vec<u8>,
    counterparty_versions: Vec<Vec<u8>>,
    proof_height: Height,
    proof_connection: Vec<u8>,
    proof_client: Vec<u8>,
    proof_consensus: Vec<u8>,
    delay_period: Duration,
}

impl View for ConnectionOpenTryData {
    type V = OpenTryView;

    closed spec fn view(&self) -> OpenTryView {
        OpenTryView {
            prev_conn_id: self.prev_conn_id.deep_view(),
            client_id: self.client_id@,
            client_state: self.client_state@,
            counterparty: self.counterparty@,
            counterparty_versions: self.counterparty_versions.deep_view(),
            proof_height: self.proof_height,
            proof_connection: self.proof_connection@,
            proof_client: self.proof_client@,
            proof_consensus: self.proof_consensus@,
            delay_period: self.delay_period,
        }
    }
}

/// The leading fields of an open-try record, by component: the optional
/// previous connection id, the client id, and the encoded client state,
/// counterparty and versions.
pub open spec fn front_wire_of(
    p: Option<Seq<char>>,
    c: Seq<char>,
    a: Seq<u8>,
    b: Seq<u8>,
    vs: Seq<Seq<u8>>,
) -> Seq<u8> {
    spec_ser_opt_string(p) + (spec_ser_string(c) + (spec_ser_bytes(a) + (spec_ser_bytes(b)
        + spec_ser_vec_bytes(vs))))
}

pub open spec fn front_wf_of(
    p: Option<Seq<char>>,
    c: Seq<char>,
    a: Seq<u8>,
    b: Seq<u8>,
    vs: Seq<Seq<u8>>,
) -> bool {
    opt_string_wf(p) && string_wf(c) && bytes_wf(a) && bytes_wf(b) && vec_bytes_wf(vs)
}

/// The trailing fields, by component: the height pair, the three proofs and
/// the delay pair.
pub open spec fn back_wire_of(
    rn: u64,
    rh: u64,
    pc: Seq<u8>,
    pl: Seq<u8>,
    ps: Seq<u8>,
    sec: u64,
    nan: u32,
) -> Seq<u8> {
    spec_ser_u64(rn) + (spec_ser_u64(rh) + (spec_ser_bytes(pc) + (spec_ser_bytes(pl) + (
    spec_ser_bytes(ps) + (spec_ser_u64(sec) + spec_ser_u32(nan))))))
}

pub open spec fn back_wf_of(pc: Seq<u8>, pl: Seq<u8>, ps: Seq<u8>) -> bool {
    bytes_wf(pc) && bytes_wf(pl) && bytes_wf(ps)
}

/// The leading fields of an open-try record.
pub open spec fn open_try_front_wire(v: OpenTryView) -> Seq<u8> {
    front_wire_of(v.prev_conn_id, v.client_id, v.client_state, v.counterparty,
        v.counterparty_versions)
}

/// The trailing fields of an open-try record.
pub open spec fn open_try_back_wire(v: OpenTryView) -> Seq<u8> {
    back_wire_of(v.proof_height.revision_number, v.proof_height.revision_height,
        v.proof_connection, v.proof_client, v.proof_consensus, v.delay_period.secs,
        v.delay_period.nanos)
}

/// The container layout of a connection-open-try record.
pub open spec fn open_try_wire(v: OpenTryView) -> Seq<u8> {
    open_try_front_wire(v) + open_try_back_wire(v)
}

/// The record fits the container format.
pub open spec fn open_try_wire_wf(v: OpenTryView) -> bool {
    &&& front_wf_of(
        v.prev_conn_id,
        v.client_id,
        v.client_state,
        v.counterparty,
        v.counterparty_versions,
    )
    &&& back_wf_of(v.proof_connection, v.proof_client, v.proof_consensus)
}

proof fn lemma_front_parts(
    s: Seq<u8>,
    p: Option<Seq<char>>,
    c: Seq<char>,
    a: Seq<u8>,
    b: Seq<u8>,
    vs: Seq<Seq<u8>>,
)
    ensures
        prefix_at(s, 0, front_wire_of(p, c, a, b, vs)) <==> ({
            let o1 = spec_ser_opt_string(p).len() as int;
            let o2 = o1 + spec_ser_string(c).len();
            let o3 = o2 + spec_ser_bytes(a).len();
            let o4 = o3 + spec_ser_bytes(b).len();
            &&& prefix_at(s, 0, spec_ser_opt_string(p))
            &&& prefix_at(s, o1, spec_ser_string(c))
            &&& prefix_at(s, o2, spec_ser_bytes(a))
            &&& prefix_at(s, o3, spec_ser_bytes(b))
            &&& prefix_at(s, o4, spec_ser_vec_bytes(vs))
        }),
{
    let o1 = spec_ser_opt_string(p).len() as int;
    let o2 = o1 + spec_ser_string(c).len();
    let o3 = o2 + spec_ser_bytes(a).len();
    lemma_prefix_at_concat(
        s,
        0,
        spec_ser_opt_string(p),
        spec_ser_string(c) + (spec_ser_bytes(a) + (spec_ser_bytes(b) + spec_ser_vec_bytes(vs))),
    );
    lemma_prefix_at_concat(
        s,
        o1,
        spec_ser_string(c),
        spec_ser_bytes(a) + (spec_ser_bytes(b) + spec_ser_vec_bytes(vs)),
    );
    lemma_prefix_at_concat(s, o2, spec_ser_bytes(a), spec_ser_bytes(b) + spec_ser_vec_bytes(vs));
    lemma_prefix_at_concat(s, o3, spec_ser_bytes(b), spec_ser_vec_bytes(vs));
}

proof fn lemma_front_det(
    s: Seq<u8>,
    p1: Option<Seq<char>>,
    c1: Seq<char>,
    a1: Seq<u8>,
    b1: Seq<u8>,
    vs1: Seq<Seq<u8>>,
    p2: Option<Seq<char>>,
    c2: Seq<char>,
    a2: Seq<u8>,
    b2: Seq<u8>,
    vs2: Seq<Seq<u8>>,
)
    requires
        front_wf_of(p1, c1, a1, b1, vs1),
        front_wf_of(p2, c2, a2, b2, vs2),
        prefix_at(s, 0, front_wire_of(p1, c1, a1, b1, vs1)),
        prefix_at(s, 0, front_wire_of(p2, c2, a2, b2, vs2)),
    ensures
        p1 == p2 && c1 == c2 && a1 == a2 && b1 == b2 && vs1 == vs2,
{
    lemma_front_parts(s, p1, c1, a1, b1, vs1);
    lemma_front_parts(s, p2, c2, a2, b2, vs2);
    lemma_ser_opt_string_prefix_det(s, 0, p1, p2);
    let o1 = spec_ser_opt_string(p1).len() as int;
    lemma_ser_string_prefix_det(s, o1, c1, c2);
    let o2 = o1 + spec_ser_string(c1).len();
    lemma_ser_bytes_prefix_det(s, o2, a1, a2);
    let o3 = o2 + spec_ser_bytes(a1).len();
    lemma_ser_bytes_prefix_det(s, o3, b1, b2);
    let o4 = o3 + spec_ser_bytes(b1).len();
    lemma_ser_vec_bytes_prefix_det(s, o4, vs1, vs2);
}

proof fn lemma_back_parts(
    s: Seq<u8>,
    pos: int,
    rn: u64,
    rh: u64,
    pc: Seq<u8>,
    pl: Seq<u8>,
    ps: Seq<u8>,
    sec: u64,
    nan: u32,
)
    ensures
        prefix_at(s, pos, back_wire_of(rn, rh, pc, pl, ps, sec, nan)) <==> ({
            let o3 = pos + 16 + spec_ser_bytes(pc).len();
            let o4 = o3 + spec_ser_bytes(pl).len();
            let o5 = o4 + spec_ser_bytes(ps).len();
            &&& prefix_at(s, pos, spec_ser_u64(rn))
            &&& prefix_at(s, pos + 8, spec_ser_u64(rh))
            &&& prefix_at(s, pos + 16, spec_ser_bytes(pc))
            &&& prefix_at(s, o3, spec_ser_bytes(pl))
            &&& prefix_at(s, o4, spec_ser_bytes(ps))
            &&& prefix_at(s, o5, spec_ser_u64(sec))
            &&& prefix_at(s, o5 + 8, spec_ser_u32(nan))
        }),
{
    let o3 = pos + 16 + spec_ser_bytes(pc).len();
    let o4 = o3 + spec_ser_bytes(pl).len();
    let o5 = o4 + spec_ser_bytes(ps).len();
    lemma_prefix_at_concat(
        s,
        pos,
        spec_ser_u64(rn),
        spec_ser_u64(rh) + (spec_ser_bytes(pc) + (spec_ser_bytes(pl) + (spec_ser_bytes(ps) + (
        spec_ser_u64(sec) + spec_ser_u32(nan))))),
    );
    lemma_prefix_at_concat(
        s,
        pos + 8,
        spec_ser_u64(rh),
        spec_ser_bytes(pc) + (spec_ser_bytes(pl) + (spec_ser_bytes(ps) + (spec_ser_u64(sec)
            + spec_ser_u32(nan)))),
    );
    lemma_prefix_at_concat(
        s,
        pos + 16,
        spec_ser_bytes(pc),
        spec_ser_bytes(pl) + (spec_ser_bytes(ps) + (spec_ser_u64(sec) + spec_ser_u32(nan))),
    );
    lemma_prefix_at_concat(
        s,
        o3,
        spec_ser_bytes(pl),
        spec_ser_bytes(ps) + (spec_ser_u64(sec) + spec_ser_u32(nan)),
    );
    lemma_prefix_at_concat(s, o4, spec_ser_bytes(ps), spec_ser_u64(sec) + spec_ser_u32(nan));
    lemma_prefix_at_concat(s, o5, spec_ser_u64(sec), spec_ser_u32(nan));
}

proof fn lemma_back_det(
    s: Seq<u8>,
    pos: int,
    rn1: u64,
    rh1: u64,
    pc1: Seq<u8>,
    pl1: Seq<u8>,
    ps1: Seq<u8>,
    sec1: u64,
    nan1: u32,
    rn2: u64,
    rh2: u64,
    pc2: Seq<u8>,
    pl2: Seq<u8>,
    ps2: Seq<u8>,
    sec2: u64,
    nan2: u32,
)
    requires
        back_wf_of(pc1, pl1, ps1),
        back_wf_of(pc2, pl2, ps2),
        prefix_at(s, pos, back_wire_of(rn1, rh1, pc1, pl1, ps1, sec1, nan1)),
        prefix_at(s, pos, back_wire_of(rn2, rh2, pc2, pl2, ps2, sec2, nan2)),
    ensures
        rn1 == rn2 && rh1 == rh2 && pc1 == pc2 && pl1 == pl2 && ps1 == ps2 && sec1 == sec2 && nan1
            == nan2,
{
    lemma_back_parts(s, pos, rn1, rh1, pc1, pl1, ps1, sec1, nan1);
    lemma_back_parts(s, pos, rn2, rh2, pc2, pl2, ps2, sec2, nan2);
    lemma_ser_u64_prefix_det(s, pos, rn1, rn2);
    lemma_ser_u64_prefix_det(s, pos + 8, rh1, rh2);
    lemma_ser_bytes_prefix_det(s, pos + 16, pc1, pc2);
    let o3 = pos + 16 + spec_ser_bytes(pc1).len();
    lemma_ser_bytes_prefix_det(s, o3, pl1, pl2);
    let o4 = o3 + spec_ser_bytes(pl1).len();
    lemma_ser_bytes_prefix_det(s, o4, ps1, ps2);
    let o5 = o4 + spec_ser_bytes(ps1).len();
    lemma_ser_u64_prefix_det(s, o5, sec1, sec2);
    lemma_ser_u32_prefix_det(s, o5 + 8, nan1, nan2);
}

impl ConnectionOpenTryData {
    /// Build the record from live objects: identifiers are stored raw, the
    /// client state, counterparty and versions are encoded eagerly, the
    /// proofs travel verbatim.
    pub fn new(
        prev_conn_id: Option<ConnectionId>,
        client_id: ClientId,
        client_state: ClientState,
        counterparty: Counterparty,
        counterparty_versions: Vec<Version>,
        proof_height: Height,
        proof_connection: CommitmentProofBytes,
        proof_client: CommitmentProofBytes,
        proof_consensus: CommitmentProofBytes,
        delay_period: Duration,
    ) -> (r: ConnectionOpenTryData)
        ensures
            prev_conn_id matches Some(id) ==> r@.prev_conn_id == Some(id@) && valid_identifier(
                id@,
            ),
            prev_conn_id is None ==> r@.prev_conn_id is None,
            opt_string_wf(r@.prev_conn_id),
            r@.client_id == client_id@,
            valid_identifier(r@.client_id),
            string_wf(r@.client_id),
            r@.client_state == client_state.wire(),
            any_parse(r@.client_state) == Some(client_state@),
            r@.counterparty == counterparty.wire(),
            counterparty_parse(r@.counterparty) == Some(counterparty@),
            r@.counterparty_versions.len() == counterparty_versions@.len(),
            forall|i: int|
                0 <= i < counterparty_versions@.len() ==> #[trigger] r@.counterparty_versions[i]
                    == counterparty_versions@[i].wire() && version_parse(
                    r@.counterparty_versions[i],
                ) == Some(counterparty_versions@[i]@),
            r@.proof_height == proof_height,
            r@.proof_connection == proof_connection@,
            r@.proof_client == proof_client@,
            r@.proof_consensus == proof_consensus@,
            r@.delay_period == delay_period,
    {
        let prev = match prev_conn_id {
            Some(id) => {
                let raw = id.into_string();
                proof {
                    lemma_valid_identifier_wire(raw@);
                }
                Some(raw)
            },
            None => None,
        };
        let cid = client_id.into_string();
        proof {
            lemma_valid_identifier_wire(cid@);
        }
        let cs = client_state.encode_vec();
        let cp = counterparty.encode_vec();
        let mut vers: Vec<Vec<u8>> = Vec::new();
        let n = counterparty_versions.len();
        let mut i: usize = 0;
        while i < n
            invariant
                n == counterparty_versions@.len(),
                i <= n,
                vers@.len() == i,
                forall|j: int|
                    0 <= j < i ==> #[trigger] vers@[j]@ == counterparty_versions@[j].wire()
                        && version_parse(vers@[j]@) == Some(counterparty_versions@[j]@),
            decreases n - i,
        {
            let e = counterparty_versions[i].encode_vec();
            vers.push(e);
            i = i + 1;
        }
        let r = ConnectionOpenTryData {
            prev_conn_id: prev,
            client_id: cid,
            client_state: cs,
            counterparty: cp,
            counterparty_versions: vers,
            proof_height,
            proof_connection: proof_connection.bytes,
            proof_client: proof_client.bytes,
            proof_consensus: proof_consensus.bytes,
            delay_period,
        };
        proof {
            assert(forall|j: int|
                0 <= j < n ==> #[trigger] r@.counterparty_versions[j] == vers@[j]@);
        }
        r
    }

    /// Parse the stored previous connection identifier, if one is present.
    /// Absence is a non-error outcome, distinct from a present but malformed
    /// identifier.
    pub fn previous_connection_id(&self) -> (r: Result<Option<ConnectionId>, Error>)
        ensures
            self@.prev_conn_id is None ==> (r matches Ok(o) && o is None),
            self@.prev_conn_id matches Some(s) ==> (valid_identifier(s) ==> (r matches Ok(o)
                && o matches Some(id) && id@ == s)),
            r is Err <==> (self@.prev_conn_id matches Some(s) && !valid_identifier(s)),
    {
        match &self.prev_conn_id {
            None => Ok(None),
            Some(s) => match ConnectionId::from_string(s.clone()) {
                Ok(id) => Ok(Some(id)),
                Err(e) => Err(e),
            },
        }
    }

    /// Parse the stored client identifier.
    pub fn client_id(&self) -> (r: Result<ClientId, Error>)
        ensures
            r matches Ok(id) ==> id@ == self@.client_id && valid_identifier(self@.client_id),
            r is Err <==> !valid_identifier(self@.client_id),
    {
        ClientId::from_string(self.client_id.clone())
    }

    /// Decode the stored client state.
    pub fn client_state(&self) -> (r: Result<ClientState, Error>)
        ensures
            r matches Ok(y) ==> any_parse(self@.client_state) == Some(y@),
            r is Err <==> any_parse(self@.client_state) is None,
    {
        ClientState::decode_vec(&self.client_state)
    }

    /// Decode the stored counterparty descriptor.
    pub fn counterparty(&self) -> (r: Result<Counterparty, Error>)
        ensures
            r matches Ok(y) ==> counterparty_parse(self@.counterparty) == Some(y@),
            r is Err <==> counterparty_parse(self@.counterparty) is None,
    {
        Counterparty::decode_vec(&self.counterparty)
    }

    /// Decode every stored counterparty version, in order.  One malformed
    /// version fails the whole read.
    pub fn counterparty_versions(&self) -> (r: Result<Vec<Version>, Error>)
        ensures
            r matches Ok(v) ==> v@.len() == self@.counterparty_versions.len() && forall|i: int|
                0 <= i < v@.len() ==> version_parse(#[trigger] self@.counterparty_versions[i])
                    == Some(v@[i]@),
            r is Err <==> exists|i: int|
                0 <= i < self@.counterparty_versions.len() && version_parse(
                    #[trigger] self@.counterparty_versions[i],
                ) is None,
    {
        let mut out: Vec<Version> = Vec::new();
        let n = self.counterparty_versions.len();
        let mut i: usize = 0;
        while i < n
            invariant
                n == self.counterparty_versions@.len(),
                n == self@.counterparty_versions.len(),
                i <= n,
                out@.len() == i,
                forall|j: int|
                    0 <= j < i ==> version_parse(#[trigger] self@.counterparty_versions[j]) == Some(
                        out@[j]@,
                    ),
            decreases n - i,
        {
            proof {
                assert(self@.counterparty_versions[i as int]
                    == self.counterparty_versions@[i as int]@);
            }
            match Version::decode_vec(&self.counterparty_versions[i]) {
                Ok(h) => {
                    out.push(h);
                },
                Err(e) => {
                    proof {
                        assert(version_parse(self@.counterparty_versions[i as int]) is None);
                    }
                    return Err(e);
                },
            }
            i = i + 1;
        }
        Ok(out)
    }

    /// The height the proofs are read at, exactly as stored.
    pub fn proof_height(&self) -> (r: Height)
        ensures
            r == self@.proof_height,
    {
        self.proof_height
    }

    /// The stored connection proof, verbatim.
    pub fn proof_connection(&self) -> (r: CommitmentProofBytes)
        ensures
            r@ == self@.proof_connection,
    {
        CommitmentProofBytes { bytes: self.proof_connection.clone() }
    }

    /// The stored client proof, verbatim.
    pub fn proof_client(&self) -> (r: CommitmentProofBytes)
        ensures
            r@ == self@.proof_client,
    {
        CommitmentProofBytes { bytes: self.proof_client.clone() }
    }

    /// The stored consensus proof, verbatim.
    pub fn proof_consensus(&self) -> (r: CommitmentProofBytes)
        ensures
            r@ == self@.proof_consensus,
    {
        CommitmentProofBytes { bytes: self.proof_consensus.clone() }
    }

    /// The delay period, exactly as stored.
    pub fn delay_period(&self) -> (r: Duration)
        ensures
            r == self@.delay_period,
    {
        self.delay_period
    }

    /// Assemble the proof bundle for this step: the stored proofs and the
    /// stored height, with the consensus proof stamped by that height and
    /// the slot for other proof kinds left empty.  Fails exactly when the
    /// stored consensus proof is empty.
    pub fn proofs(&self) -> (r: Result<ProofBundle, Error>)
        ensures
            r matches Ok(b) ==> ({
                &&& b.object_proof@ == self@.proof_connection
                &&& b.client_proof matches Some(c) && c@ == self@.proof_client
                &&& b.consensus_proof matches Some(c) && c.proof@ == self@.proof_consensus
                    && c.height == self@.proof_height
                &&& b.other_proof is None
                &&& b.height == self@.proof_height
            }),
            r is Err <==> self@.proof_consensus.len() == 0,
    {
        let height = self.proof_height();
        assemble_proofs(
            self.proof_connection(),
            self.proof_client(),
            self.proof_consensus(),
            height,
        )
    }

    /// Serialize the record into the flat transaction container.
    #[verifier::rlimit(100)]
    pub fn to_bytes(&self) -> (r: Vec<u8>)
        requires
            open_try_wire_wf(self@),
        ensures
            r@ == open_try_wire(self@),
    {
        let mut out: Vec<u8> = Vec::new();
        ser_opt_string(&mut out, &self.prev_conn_id);
        ser_string(&mut out, &self.client_id);
        ser_bytes(&mut out, &self.client_state);
        ser_bytes(&mut out, &self.counterparty);
        ser_vec_bytes(&mut out, &self.counterparty_versions);
        ser_u64(&mut out, self.proof_height.revision_number);
        ser_u64(&mut out, self.proof_height.revision_height);
        ser_bytes(&mut out, &self.proof_connection);
        ser_bytes(&mut out, &self.proof_client);
        ser_bytes(&mut out, &self.proof_consensus);
        ser_u64(&mut out, self.delay_period.secs);
        ser_u32(&mut out, self.delay_period.nanos);
        proof {
            assert(out@ =~= open_try_wire(self@));
        }
        out
    }

    /// Deserialize a record from the container.  Exactly the full encodings
    /// of well-formed records are accepted; anything else is a typed error.
    pub fn from_bytes(bytes: &Vec<u8>) -> (r: Result<ConnectionOpenTryData, Error>)
        ensures
            r matches Ok(m) ==> open_try_wire_wf(m@) && bytes@ == open_try_wire(m@),
            forall|v: OpenTryView|
                open_try_wire_wf(v) && bytes@ == open_try_wire(v) ==> (r matches Ok(m) && m@
                    == v),
    {
        let fr = match parse_open_try_front(bytes) {
            Ok(t) => t,
            Err(e) => {
                proof {
                    assert forall|v: OpenTryView|
                        open_try_wire_wf(v) && bytes@ == open_try_wire(v) implies false by {
                        lemma_prefix_at_whole(bytes@);
                        lemma_prefix_at_concat(
                            bytes@,
                            0,
                            open_try_front_wire(v),
                            open_try_back_wire(v),
                        );
                    }
                }
                return Err(e);
            },
        };
        let mid = fr.1;
        let bk = match parse_open_try_back(bytes, mid) {
            Ok(t) => t,
            Err(e) => {
                proof {
                    assert forall|v: OpenTryView|
                        open_try_wire_wf(v) && bytes@ == open_try_wire(v) implies false by {
                        lemma_prefix_at_whole(bytes@);
                        lemma_prefix_at_concat(
                            bytes@,
                            0,
                            open_try_front_wire(v),
                            open_try_back_wire(v),
                        );
                        lemma_front_det(
                            bytes@,
                            v.prev_conn_id,
                            v.client_id,
                            v.client_state,
                            v.counterparty,
                            v.counterparty_versions,
                            fr.0.0.deep_view(),
                            fr.0.1@,
                            fr.0.2@,
                            fr.0.3@,
                            fr.0.4.deep_view(),
                        );
                    }
                }
                return Err(e);
            },
        };
        if bk.1 != bytes.len() {
            proof {
                assert forall|v: OpenTryView|
                    open_try_wire_wf(v) && bytes@ == open_try_wire(v) implies false by {
                    lemma_prefix_at_whole(bytes@);
                    lemma_prefix_at_concat(
                        bytes@,
                        0,
                        open_try_front_wire(v),
                        open_try_back_wire(v),
                    );
                    lemma_front_det(
                        bytes@,
                        v.prev_conn_id,
                        v.client_id,
                        v.client_state,
                        v.counterparty,
                        v.counterparty_versions,
                        fr.0.0.deep_view(),
                        fr.0.1@,
                        fr.0.2@,
                        fr.0.3@,
                        fr.0.4.deep_view(),
                    );
                    lemma_back_det(
                        bytes@,
                        mid as int,
                        v.proof_height.revision_number,
                        v.proof_height.revision_height,
                        v.proof_connection,
                        v.proof_client,
                        v.proof_consensus,
                        v.delay_period.secs,
                        v.delay_period.nanos,
                        bk.0.0,
                        bk.0.1,
                        bk.0.2@,
                        bk.0.3@,
                        bk.0.4@,
                        bk.0.5,
                        bk.0.6,
                    );
                }
            }
            return Err(trailing_error());
        }
        let f = fr.0;
        let b = bk.0;
        let m = ConnectionOpenTryData {
            prev_conn_id: f.0,
            client_id: f.1,
            client_state: f.2,
            counterparty: f.3,
            counterparty_versions: f.4,
            proof_height: Height { revision_number: b.0, revision_height: b.1 },
            proof_connection: b.2,
            proof_client: b.3,
            proof_consensus: b.4,
            delay_period: Duration { secs: b.5, nanos: b.6 },
        };
        proof {
            lemma_prefix_at_concat(bytes@, 0, open_try_front_wire(m@), open_try_back_wire(m@));
            assert(prefix_at(bytes@, 0, open_try_wire(m@)));
            assert(bytes@ =~= open_try_wire(m@));
            assert forall|v: OpenTryView|
                open_try_wire_wf(v) && bytes@ == open_try_wire(v) implies m@ == v by {
                lemma_prefix_at_whole(bytes@);
                lemma_prefix_at_concat(bytes@, 0, open_try_front_wire(v), open_try_back_wire(v));
                lemma_front_det(
                    bytes@,
                    v.prev_conn_id,
                    v.client_id,
                    v.client_state,
                    v.counterparty,
                    v.counterparty_versions,
                    m@.prev_conn_id,
                    m@.client_id,
                    m@.client_state,
                    m@.counterparty,
                    m@.counterparty_versions,
                );
                lemma_back_det(
                    bytes@,
                    mid as int,
                    v.proof_height.revision_number,
                    v.proof_height.revision_height,
                    v.proof_connection,
                    v.proof_client,
                    v.proof_consensus,
                    v.delay_period.secs,
                    v.delay_period.nanos,
                    m@.proof_height.revision_number,
                    m@.proof_height.revision_height,
                    m@.proof_connection,
                    m@.proof_client,
                    m@.proof_consensus,
                    m@.delay_period.secs,
                    m@.delay_period.nanos,
                );
                assert(m@ =~= v);
            }
        }
        Ok(m)
    }
}

fn parse_open_try_front(bytes: &Vec<u8>) -> (r: Result<
    ((Option<String>, String, Vec<u8>, Vec<u8>, Vec<Vec<u8>>), usize),
    Error,
>)
    ensures
        match r {
            Ok(t) => ({
                let pv = t.0.0.deep_view();
                let cv = t.0.1@;
                let av = t.0.2@;
                let bv = t.0.3@;
                let vv = t.0.4.deep_view();
                &&& front_wf_of(pv, cv, av, bv, vv)
                &&& prefix_at(bytes@, 0, front_wire_of(pv, cv, av, bv, vv))
                &&& t.1 == front_wire_of(pv, cv, av, bv, vv).len()
                &&& t.1 <= bytes@.len()
            }),
            Err(_) => forall|p: Option<Seq<char>>, c: Seq<char>, a: Seq<u8>, b: Seq<u8>, vs: Seq<
                Seq<u8>,
            >|
                front_wf_of(p, c, a, b, vs) ==> !prefix_at(
                    bytes@,
                    0,
                    #[trigger] front_wire_of(p, c, a, b, vs),
                ),
        },
{
    let t1 = match des_opt_string(bytes, 0) {
        Ok(t) => t,
        Err(e) => {
            proof {
                assert forall|p: Option<Seq<char>>, c: Seq<char>, a: Seq<u8>, b: Seq<u8>, vs: Seq<
                    Seq<u8>,
                >|
                    front_wf_of(p, c, a, b, vs) implies !prefix_at(
                    bytes@,
                    0,
                    #[trigger] front_wire_of(p, c, a, b, vs),
                ) by {
                    if prefix_at(bytes@, 0, front_wire_of(p, c, a, b, vs)) {
                        lemma_front_parts(bytes@, p, c, a, b, vs);
                    }
                }
            }
            return Err(e);
        },
    };
    let t2 = match des_string(bytes, t1.1) {
        Ok(t) => t,
        Err(e) => {
            proof {
                assert forall|p: Option<Seq<char>>, c: Seq<char>, a: Seq<u8>, b: Seq<u8>, vs: Seq<
                    Seq<u8>,
                >|
                    front_wf_of(p, c, a, b, vs) implies !prefix_at(
                    bytes@,
                    0,
                    #[trigger] front_wire_of(p, c, a, b, vs),
                ) by {
                    if prefix_at(bytes@, 0, front_wire_of(p, c, a, b, vs)) {
                        lemma_front_parts(bytes@, p, c, a, b, vs);
                        lemma_ser_opt_string_prefix_det(bytes@, 0, p, t1.0.deep_view());
                    }
                }
            }
            return Err(e);
        },
    };
    let t3 = match des_bytes(bytes, t2.1) {
        Ok(t) => t,
        Err(e) => {
            proof {
                assert forall|p: Option<Seq<char>>, c: Seq<char>, a: Seq<u8>, b: Seq<u8>, vs: Seq<
                    Seq<u8>,
                >|
                    front_wf_of(p, c, a, b, vs) implies !prefix_at(
                    bytes@,
                    0,
                    #[trigger] front_wire_of(p, c, a, b, vs),
                ) by {
                    if prefix_at(bytes@, 0, front_wire_of(p, c, a, b, vs)) {
                        lemma_front_parts(bytes@, p, c, a, b, vs);
                        lemma_ser_opt_string_prefix_det(bytes@, 0, p, t1.0.deep_view());
                        lemma_ser_string_prefix_det(bytes@, t1.1 as int, c, t2.0@);
                    }
                }
            }
            return Err(e);
        },
    };
    let t4 = match des_bytes(bytes, t3.1) {
        Ok(t) => t,
        Err(e) => {
            proof {
                assert forall|p: Option<Seq<char>>, c: Seq<char>, a: Seq<u8>, b: Seq<u8>, vs: Seq<
                    Seq<u8>,
                >|
                    front_wf_of(p, c, a, b, vs) implies !prefix_at(
                    bytes@,
                    0,
                    #[trigger] front_wire_of(p, c, a, b, vs),
                ) by {
                    if prefix_at(bytes@, 0, front_wire_of(p, c, a, b, vs)) {
                        lemma_front_parts(bytes@, p, c, a, b, vs);
                        lemma_ser_opt_string_prefix_det(bytes@, 0, p, t1.0.deep_view());
                        lemma_ser_string_prefix_det(bytes@, t1.1 as int, c, t2.0@);
                        lemma_ser_bytes_prefix_det(bytes@, t2.1 as int, a, t3.0@);
                    }
                }
            }
            return Err(e);
        },
    };
    let t5 = match des_vec_bytes(bytes, t4.1) {
        Ok(t) => t,
        Err(e) => {
            proof {
                assert forall|p: Option<Seq<char>>, c: Seq<char>, a: Seq<u8>, b: Seq<u8>, vs: Seq<
                    Seq<u8>,
                >|
                    front_wf_of(p, c, a, b, vs) implies !prefix_at(
                    bytes@,
                    0,
                    #[trigger] front_wire_of(p, c, a, b, vs),
                ) by {
                    if prefix_at(bytes@, 0, front_wire_of(p, c, a, b, vs)) {
                        lemma_front_parts(bytes@, p, c, a, b, vs);
                        lemma_ser_opt_string_prefix_det(bytes@, 0, p, t1.0.deep_view());
                        lemma_ser_string_prefix_det(bytes@, t1.1 as int, c, t2.0@);
                        lemma_ser_bytes_prefix_det(bytes@, t2.1 as int, a, t3.0@);
                        lemma_ser_bytes_prefix_det(bytes@, t3.1 as int, b, t4.0@);
                    }
                }
            }
            return Err(e);
        },
    };
    proof {
        lemma_front_parts(bytes@, t1.0.deep_view(), t2.0@, t3.0@, t4.0@, t5.0.deep_view());
    }
    Ok(((t1.0, t2.0, t3.0, t4.0, t5.0), t5.1))
}

fn parse_open_try_back(bytes: &Vec<u8>, pos: usize) -> (r: Result<
    ((u64, u64, Vec<u8>, Vec<u8>, Vec<u8>, u64, u32), usize),
    Error,
>)
    requires
        pos <= bytes@.len(),
    ensures
        match r {
            Ok(t) => ({
                &&& back_wf_of(t.0.2@, t.0.3@, t.0.4@)
                &&& prefix_at(
                    bytes@,
                    pos as int,
                    back_wire_of(t.0.0, t.0.1, t.0.2@, t.0.3@, t.0.4@, t.0.5, t.0.6),
                )
                &&& t.1 == pos + back_wire_of(
                    t.0.0,
                    t.0.1,
                    t.0.2@,
                    t.0.3@,
                    t.0.4@,
                    t.0.5,
                    t.0.6,
                ).len()
                &&& t.1 <= bytes@.len()
            }),
            Err(_) => forall|rn: u64, rh: u64, pc: Seq<u8>, pl: Seq<u8>, ps: Seq<u8>, sec: u64, nan:
                u32|
                back_wf_of(pc, pl, ps) ==> !prefix_at(
                    bytes@,
                    pos as int,
                    #[trigger] back_wire_of(rn, rh, pc, pl, ps, sec, nan),
                ),
        },
{
    let t6 = match des_u64(bytes, pos) {
        Ok(t) => t,
        Err(e) => {
            proof {
                assert forall|rn: u64, rh: u64, pc: Seq<u8>, pl: Seq<u8>, ps: Seq<u8>, sec: u64, nan:
                    u32|
                    back_wf_of(pc, pl, ps) implies !prefix_at(
                    bytes@,
                    pos as int,
                    #[trigger] back_wire_of(rn, rh, pc, pl, ps, sec, nan),
                ) by {
                    if prefix_at(bytes@, pos as int, back_wire_of(rn, rh, pc, pl, ps, sec, nan)) {
                        lemma_back_parts(bytes@, pos as int, rn, rh, pc, pl, ps, sec, nan);
                    }
                }
            }
            return Err(e);
        },
    };
    let t7 = match des_u64(bytes, t6.1) {
        Ok(t) => t,
        Err(e) => {
            proof {
                assert forall|rn: u64, rh: u64, pc: Seq<u8>, pl: Seq<u8>, ps: Seq<u8>, sec: u64, nan:
                    u32|
                    back_wf_of(pc, pl, ps) implies !prefix_at(
                    bytes@,
                    pos as int,
                    #[trigger] back_wire_of(rn, rh, pc, pl, ps, sec, nan),
                ) by {
                    if prefix_at(bytes@, pos as int, back_wire_of(rn, rh, pc, pl, ps, sec, nan)) {
                        lemma_back_parts(bytes@, pos as int, rn, rh, pc, pl, ps, sec, nan);
                    }
                }
            }
            return Err(e);
        },
    };
    let t8 = match des_bytes(bytes, t7.1) {
        Ok(t) => t,
        Err(e) => {
            proof {
                assert forall|rn: u64, rh: u64, pc: Seq<u8>, pl: Seq<u8>, ps: Seq<u8>, sec: u64, nan:
                    u32|
                    back_wf_of(pc, pl, ps) implies !prefix_at(
                    bytes@,
                    pos as int,
                    #[trigger] back_wire_of(rn, rh, pc, pl, ps, sec, nan),
                ) by {
                    if prefix_at(bytes@, pos as int, back_wire_of(rn, rh, pc, pl, ps, sec, nan)) {
                        lemma_back_parts(bytes@, pos as int, rn, rh, pc, pl, ps, sec, nan);
                    }
                }
            }
            return Err(e);
        },
    };
    let t9 = match des_bytes(bytes, t8.1) {
        Ok(t) => t,
        Err(e) => {
            proof {
                assert forall|rn: u64, rh: u64, pc: Seq<u8>, pl: Seq<u8>, ps: Seq<u8>, sec: u64, nan:
                    u32|
                    back_wf_of(pc, pl, ps) implies !prefix_at(
                    bytes@,
                    pos as int,
                    #[trigger] back_wire_of(rn, rh, pc, pl, ps, sec, nan),
                ) by {
                    if prefix_at(bytes@, pos as int, back_wire_of(rn, rh, pc, pl, ps, sec, nan)) {
                        lemma_back_parts(bytes@, pos as int, rn, rh, pc, pl, ps, sec, nan);
                        lemma_ser_bytes_prefix_det(bytes@, t7.1 as int, pc, t8.0@);
                    }
                }
            }
            return Err(e);
        },
    };
    let t10 = match des_bytes(bytes, t9.1) {
        Ok(t) => t,
        Err(e) => {
            proof {
                assert forall|rn: u64, rh: u64, pc: Seq<u8>, pl: Seq<u8>, ps: Seq<u8>, sec: u64, nan:
                    u32|
                    back_wf_of(pc, pl, ps) implies !prefix_at(
                    bytes@,
                    pos as int,
                    #[trigger] back_wire_of(rn, rh, pc, pl, ps, sec, nan),
                ) by {
                    if prefix_at(bytes@, pos as int, back_wire_of(rn, rh, pc, pl, ps, sec, nan)) {
                        lemma_back_parts(bytes@, pos as int, rn, rh, pc, pl, ps, sec, nan);
                        lemma_ser_bytes_prefix_det(bytes@, t7.1 as int, pc, t8.0@);
                        lemma_ser_bytes_prefix_det(bytes@, t8.1 as int, pl, t9.0@);
                    }
                }
            }
            return Err(e);
        },
    };
    let t11 = match des_u64(bytes, t10.1) {
        Ok(t) => t,
        Err(e) => {
            proof {
                assert forall|rn: u64, rh: u64, pc: Seq<u8>, pl: Seq<u8>, ps: Seq<u8>, sec: u64, nan:
                    u32|
                    back_wf_of(pc, pl, ps) implies !prefix_at(
                    bytes@,
                    pos as int,
                    #[trigger] back_wire_of(rn, rh, pc, pl, ps, sec, nan),
                ) by {
                    if prefix_at(bytes@, pos as int, back_wire_of(rn, rh, pc, pl, ps, sec, nan)) {
                        lemma_back_parts(bytes@, pos as int, rn, rh, pc, pl, ps, sec, nan);
                        lemma_ser_bytes_prefix_det(bytes@, t7.1 as int, pc, t8.0@);
                        lemma_ser_bytes_prefix_det(bytes@, t8.1 as int, pl, t9.0@);
                        lemma_ser_bytes_prefix_det(bytes@, t9.1 as int, ps, t10.0@);
                    }
                }
            }
            return Err(e);
        },
    };
    let t12 = match des_u32(bytes, t11.1) {
        Ok(t) => t,
        Err(e) => {
            proof {
                assert forall|rn: u64, rh: u64, pc: Seq<u8>, pl: Seq<u8>, ps: Seq<u8>, sec: u64, nan:
                    u32|
                    back_wf_of(pc, pl, ps) implies !prefix_at(
                    bytes@,
                    pos as int,
                    #[trigger] back_wire_of(rn, rh, pc, pl, ps, sec, nan),
                ) by {
                    if prefix_at(bytes@, pos as int, back_wire_of(rn, rh, pc, pl, ps, sec, nan)) {
                        lemma_back_parts(bytes@, pos as int, rn, rh, pc, pl, ps, sec, nan);
                        lemma_ser_bytes_prefix_det(bytes@, t7.1 as int, pc, t8.0@);
                        lemma_ser_bytes_prefix_det(bytes@, t8.1 as int, pl, t9.0@);
                        lemma_ser_bytes_prefix_det(bytes@, t9.1 as int, ps, t10.0@);
                    }
                }
            }
            return Err(e);
        },
    };
    proof {
        lemma_back_parts(bytes@, pos as int, t6.0, t7.0, t8.0@, t9.0@, t10.0@, t11.0, t12.0);
    }
    Ok(((t6.0, t7.0, t8.0, t9.0, t10.0, t11.0, t12.0), t12.1))
}

/// Round trip: reading every field back from a freshly built open-try record
/// yields the inputs it was built from, with absence of the previous
/// connection id preserved as absence.
pub fn open_try_round_trip(
    prev_conn_id: Option<ConnectionId>,
    client_id: ClientId,
    client_state: ClientState,
    counterparty: Counterparty,
    counterparty_versions: Vec<Version>,
    proof_height: Height,
    proof_connection: CommitmentProofBytes,
    proof_client: CommitmentProofBytes,
    proof_consensus: CommitmentProofBytes,
    delay_period: Duration,
) -> (r: (
    (
        Result<Option<ConnectionId>, Error>,
        Result<ClientId, Error>,
        Result<ClientState, Error>,
        Result<Counterparty, Error>,
        Result<Vec<Version>, Error>,
    ),
    (Height, CommitmentProofBytes, CommitmentProofBytes, CommitmentProofBytes, Duration),
))
    ensures
        prev_conn_id is None ==> (r.0.0 matches Ok(o) && o is None),
        prev_conn_id matches Some(id) ==> (r.0.0 matches Ok(o) && o matches Some(y) && y@ == id@),
        r.0.1 matches Ok(y) && y@ == client_id@,
        r.0.2 matches Ok(y) && y@ == client_state@,
        r.0.3 matches Ok(y) && y@ == counterparty@,
        r.0.4 matches Ok(v) && v@.len() == counterparty_versions@.len() && forall|i: int|
            0 <= i < counterparty_versions@.len() ==> v@[i]@ == #[trigger] counterparty_versions@[i]@,
        r.1.0 == proof_height,
        r.1.1@ == proof_connection@,
        r.1.2@ == proof_client@,
        r.1.3@ == proof_consensus@,
        r.1.4 == delay_period,
{
    let m = ConnectionOpenTryData::new(
        prev_conn_id,
        client_id,
        client_state,
        counterparty,
        counterparty_versions,
        proof_height,
        proof_connection,
        proof_client,
        proof_consensus,
        delay_period,
    );
    let rv = m.counterparty_versions();
    proof {
        if rv is Err {
            let i = choose|i: int|
                0 <= i < m@.counterparty_versions.len() && version_parse(
                    #[trigger] m@.counterparty_versions[i],
                ) is None;
            assert(m@.counterparty_versions[i] == counterparty_versions@[i].wire());
            assert(version_parse(m@.counterparty_versions[i]) == Some(counterparty_versions@[i]@));
        }
        let v = rv->Ok_0;
        assert forall|i: int| 0 <= i < counterparty_versions@.len() implies v@[i]@
            == #[trigger] counterparty_versions@[i]@ by {
            assert(m@.counterparty_versions[i] == counterparty_versions@[i].wire());
            assert(version_parse(m@.counterparty_versions[i]) == Some(counterparty_versions@[i]@));
            assert(version_parse(m@.counterparty_versions[i]) == Some(v@[i]@));
        }
    }
    (
        (
            m.previous_connection_id(),
            m.client_id(),
            m.client_state(),
            m.counterparty(),
            rv,
        ),
        (m.proof_height(), m.proof_connection(), m.proof_client(), m.proof_consensus(),
        m.delay_period()),
    )
}

} // verus!