//! End-to-end tests of the handshake message codec, run against the real
//! protobuf crates.

use ibc_handshake_codec::bundle::CommitmentProofBytes;
use ibc_handshake_codec::duration::Duration;
use ibc_handshake_codec::error::Error;
use ibc_handshake_codec::height::Height;
use ibc_handshake_codec::id::{ClientId, ConnectionId};
use ibc_handshake_codec::messages::{
    ClientCreationData, ClientUpdateData, ClientUpgradeData, ConnectionOpenInitData,
    ConnectionOpenTryData,
};
use ibc_handshake_codec::object::{
    CanonicalEncoding, ClientState, ConsensusState, Counterparty, Header, Version,
};

use prost::Message;

fn client_state(url: &str, value: &[u8]) -> ClientState {
    ClientState { type_url: url.to_string(), value: value.to_vec() }
}

fn consensus_state(url: &str, value: &[u8]) -> ConsensusState {
    ConsensusState { type_url: url.to_string(), value: value.to_vec() }
}

fn client_id(s: &str) -> ClientId {
    ClientId::from_string(s.to_string()).expect("valid client id")
}

fn connection_id(s: &str) -> ConnectionId {
    ConnectionId::from_string(s.to_string()).expect("valid connection id")
}

fn read_u32(bytes: &[u8], pos: usize) -> (u32, usize) {
    let mut b = [0u8; 4];
    b.copy_from_slice(&bytes[pos..pos + 4]);
    (u32::from_le_bytes(b), pos + 4)
}

fn read_blob(bytes: &[u8], pos: usize) -> (Vec<u8>, usize) {
    let (n, p) = read_u32(bytes, pos);
    (bytes[p..p + n as usize].to_vec(), p + n as usize)
}

#[test]
fn height_round_trip() {
    for h in [
        Height::new(0, 0),
        Height::new(0, 1),
        Height::new(7, 42),
        Height::new(u64::MAX, u64::MAX),
    ] {
        assert_eq!(Height::from_pair(h.to_pair()), h);
    }
    assert_eq!(Height::from_pair((3, 9)).to_pair(), (3, 9));
}

#[test]
fn duration_round_trip() {
    for d in [
        Duration::new(0, 0),
        Duration::new(90, 0),
        Duration::new(u64::MAX, 999_999_999),
    ] {
        assert_eq!(Duration::from_pair(d.to_pair()), d);
    }
}

#[test]
fn identifier_validation() {
    assert!(ClientId::from_string("client-7".to_string()).is_ok());
    assert!(ConnectionId::from_string("connection-3".to_string()).is_ok());
    assert!(ClientId::from_string("07-tendermint-0".to_string()).is_ok());
    assert!(ClientId::from_string(String::new()).is_err());
    assert!(ClientId::from_string("has space".to_string()).is_err());
    assert!(ClientId::from_string("na\u{ef}ve".to_string()).is_err());
    assert!(ClientId::from_string("x".repeat(65)).is_err());
    assert!(ClientId::from_string("x".repeat(64)).is_ok());
}

#[test]
fn client_creation_accessors_return_inputs() {
    let cs = client_state("/ibc.lightclients.tendermint.v1.ClientState", b"state-bytes");
    let ns = consensus_state("/ibc.lightclients.tendermint.v1.ConsensusState", b"cons-bytes");
    let m = ClientCreationData::new(cs.clone(), ns.clone());
    assert_eq!(m.client_state().unwrap(), cs);
    assert_eq!(m.consensus_state().unwrap(), ns);
    // Repeated reads are idempotent.
    assert_eq!(m.client_state().unwrap(), cs);
}

#[test]
fn client_creation_blob_is_real_protobuf() {
    let cs = client_state("/a.B", b"xyz");
    let ns = consensus_state("/c.D", b"");
    let m = ClientCreationData::new(cs, ns);
    let bytes = m.to_bytes();
    let (blob, next) = read_blob(&bytes, 0);
    let any = ibc_proto::google::protobuf::Any::decode(blob.as_slice()).unwrap();
    assert_eq!(any.type_url, "/a.B");
    assert_eq!(any.value, b"xyz".to_vec());
    let expected = ibc_proto::google::protobuf::Any {
        type_url: "/a.B".to_string(),
        value: b"xyz".to_vec(),
    }
    .encode_to_vec();
    assert_eq!(blob, expected);
    let (blob2, end) = read_blob(&bytes, next);
    assert_eq!(end, bytes.len());
    let any2 = ibc_proto::google::protobuf::Any::decode(blob2.as_slice()).unwrap();
    assert_eq!(any2.type_url, "/c.D");
}

#[test]
fn client_creation_container_round_trip() {
    let cs = client_state("/a.B", b"one");
    let ns = consensus_state("/c.D", b"two");
    let m = ClientCreationData::new(cs.clone(), ns.clone());
    let bytes = m.to_bytes();
    let back = ClientCreationData::from_bytes(&bytes).unwrap();
    assert_eq!(back, m);
    assert_eq!(back.client_state().unwrap(), cs);
}

#[test]
fn client_creation_rejects_truncated_and_trailing() {
    let m = ClientCreationData::new(client_state("/a.B", b"one"), consensus_state("/c.D", b"two"));
    let bytes = m.to_bytes();
    for cut in [0, 1, 3, bytes.len() - 1] {
        assert!(ClientCreationData::from_bytes(&bytes[..cut].to_vec()).is_err());
    }
    let mut longer = bytes.clone();
    longer.push(0);
    assert!(ClientCreationData::from_bytes(&longer).is_err());
}

#[test]
fn corrupted_blob_is_recoverable_error() {
    // A container whose framing is intact but whose first blob is not a
    // protobuf message: the accessor reports a typed error, nothing panics.
    let garbage: &[u8] = &[0xff, 0xff, 0xff];
    let mut bytes = Vec::new();
    bytes.extend_from_slice(&(garbage.len() as u32).to_le_bytes());
    bytes.extend_from_slice(garbage);
    let good = ibc_proto::google::protobuf::Any {
        type_url: "/c.D".to_string(),
        value: b"ok".to_vec(),
    }
    .encode_to_vec();
    bytes.extend_from_slice(&(good.len() as u32).to_le_bytes());
    bytes.extend_from_slice(&good);
    let m = ClientCreationData::from_bytes(&bytes).unwrap();
    let Err(Error::DecodingError(_)) = m.client_state() else {
        panic!("expected a decoding error");
    };
    // Field independence: the other field still decodes.
    assert_eq!(m.consensus_state().unwrap().type_url, "/c.D");
}

#[test]
fn client_update_round_trip() {
    let h1 = Header { type_url: "/h.One".to_string(), value: b"first".to_vec() };
    let h2 = Header { type_url: "/h.Two".to_string(), value: b"second".to_vec() };
    let m = ClientUpdateData::new(client_id("client-7"), vec![h1.clone(), h2.clone()]);
    assert_eq!(m.client_id().unwrap().as_str(), "client-7");
    assert_eq!(m.headers().unwrap(), vec![h1, h2]);
    let bytes = m.to_bytes();
    let back = ClientUpdateData::from_bytes(&bytes).unwrap();
    assert_eq!(back, m);
}

#[test]
fn client_update_field_independence() {
    // A malformed stored identifier fails only the identifier accessor; a
    // malformed header fails only the header accessor.
    let h = Header { type_url: "/h.One".to_string(), value: b"ok".to_vec() };
    let m = ClientUpdateData::new(client_id("client-7"), vec![h.clone()]);
    let good = m.to_bytes();

    // Rewrite the stored id "client-7" to "client !": still valid UTF-8, so
    // the container decodes, but the identifier accessor must reject it.
    let mut tampered_id = good.clone();
    let (_, p) = read_u32(&good, 0);
    tampered_id[p + 6] = b' ';
    tampered_id[p + 7] = b'!';
    let m2 = ClientUpdateData::from_bytes(&tampered_id).unwrap();
    assert!(m2.client_id().is_err());
    assert_eq!(m2.headers().unwrap(), vec![h]);

    // Corrupt the header blob's leading protobuf tag: the identifier
    // accessor still succeeds while the header accessor fails.
    let mut tampered_header = good.clone();
    let (_, after_id) = read_blob(&good, 0);
    let blob_start = after_id + 4 + 4;
    tampered_header[blob_start] = 0xff;
    let m3 = ClientUpdateData::from_bytes(&tampered_header).unwrap();
    assert_eq!(m3.client_id().unwrap().as_str(), "client-7");
    assert!(m3.headers().is_err());
}

#[test]
fn invalid_utf8_in_string_field_fails_container_decode() {
    let h = Header { type_url: "/h.One".to_string(), value: b"ok".to_vec() };
    let m = ClientUpdateData::new(client_id("client-7"), vec![h]);
    let mut bytes = m.to_bytes();
    // 0xff can start no UTF-8 sequence: the identifier field no longer
    // decodes as a string, so the whole container is rejected.
    bytes[4] = 0xff;
    assert!(ClientUpdateData::from_bytes(&bytes).is_err());
}

#[test]
fn client_upgrade_round_trip() {
    let cs = client_state("/a.B", b"state");
    let ns = consensus_state("/c.D", b"cons");
    // A real, non-empty proof message: MerkleProof with one raw ics23 proof.
    let proof = ibc_proto::ibc::core::commitment::v1::MerkleProof {
        proofs: vec![ibc_proto::ics23::CommitmentProof { proof: None }],
    }
    .encode_to_vec();
    let m = ClientUpgradeData::new(
        client_id("client-7"),
        cs.clone(),
        ns.clone(),
        proof.clone(),
        proof.clone(),
    );
    assert_eq!(m.client_id().unwrap().as_str(), "client-7");
    assert_eq!(m.client_state().unwrap(), cs);
    assert_eq!(m.consensus_state().unwrap(), ns);
    assert_eq!(m.proof_client().unwrap().bytes, proof);
    assert_eq!(m.proof_consensus_state().unwrap().bytes, proof);
    let bytes = m.to_bytes();
    let back = ClientUpgradeData::from_bytes(&bytes).unwrap();
    assert_eq!(back, m);
}

#[test]
fn client_upgrade_rejects_malformed_proof() {
    let m = ClientUpgradeData::new(
        client_id("client-7"),
        client_state("/a.B", b"s"),
        consensus_state("/c.D", b"c"),
        vec![0xff],
        Vec::new(),
    );
    assert!(m.proof_client().is_err());
    // An empty byte string is the encoding of an empty proof message.
    assert!(m.proof_consensus_state().is_ok());
}

#[test]
fn open_init_end_to_end() {
    // Build, serialize, deserialize, and read back every field.
    let counterparty = Counterparty {
        client_id: "client-0".to_string(),
        connection_id: "connection-3".to_string(),
        prefix: b"ibc".to_vec(),
    };
    let version = Version { identifier: "1".to_string(), features: vec![] };
    let m = ConnectionOpenInitData::new(
        client_id("client-7"),
        counterparty.clone(),
        version.clone(),
        Duration::new(90, 0),
    );
    let bytes = m.to_bytes();
    let back = ConnectionOpenInitData::from_bytes(&bytes).unwrap();
    assert_eq!(back, m);
    assert_eq!(back.client_id().unwrap().as_str(), "client-7");
    assert_eq!(back.counterparty().unwrap(), counterparty);
    assert_eq!(back.version().unwrap(), version);
    assert_eq!(back.delay_period(), Duration::new(90, 0));
    assert_eq!(back.delay_period().to_pair(), (90, 0));
}

#[test]
fn open_init_counterparty_blob_is_real_protobuf() {
    let counterparty = Counterparty {
        client_id: "client-0".to_string(),
        connection_id: "connection-3".to_string(),
        prefix: b"ibc".to_vec(),
    };
    let version = Version { identifier: "1".to_string(), features: vec!["ORDERED".to_string()] };
    let m = ConnectionOpenInitData::new(
        client_id("client-7"),
        counterparty,
        version,
        Duration::new(90, 0),
    );
    let bytes = m.to_bytes();
    let (_, p) = read_blob(&bytes, 0);
    let (cp_blob, p) = read_blob(&bytes, p);
    let raw =
        ibc_proto::ibc::core::connection::v1::Counterparty::decode(cp_blob.as_slice()).unwrap();
    assert_eq!(raw.client_id, "client-0");
    assert_eq!(raw.connection_id, "connection-3");
    assert_eq!(raw.prefix.unwrap().key_prefix, b"ibc".to_vec());
    let (ver_blob, _) = read_blob(&bytes, p);
    let raw_ver =
        ibc_proto::ibc::core::connection::v1::Version::decode(ver_blob.as_slice()).unwrap();
    assert_eq!(raw_ver.identifier, "1");
    assert_eq!(raw_ver.features, vec!["ORDERED".to_string()]);
}

fn sample_open_try(prev: Option<ConnectionId>) -> ConnectionOpenTryData {
    ConnectionOpenTryData::new(
        prev,
        client_id("client-7"),
        client_state("/a.B", b"state"),
        Counterparty {
            client_id: "client-0".to_string(),
            connection_id: "connection-3".to_string(),
            prefix: b"ibc".to_vec(),
        },
        vec![
            Version { identifier: "1".to_string(), features: vec![] },
            Version { identifier: "2".to_string(), features: vec!["UNORDERED".to_string()] },
        ],
        Height::new(0, 10),
        CommitmentProofBytes { bytes: b"conn-proof".to_vec() },
        CommitmentProofBytes { bytes: b"client-proof".to_vec() },
        CommitmentProofBytes { bytes: b"consensus-proof".to_vec() },
        Duration::new(5, 7),
    )
}

#[test]
fn open_try_round_trip_and_accessors() {
    let m = sample_open_try(Some(connection_id("connection-9")));
    let bytes = m.to_bytes();
    let back = ConnectionOpenTryData::from_bytes(&bytes).unwrap();
    assert_eq!(back, m);
    assert_eq!(
        back.previous_connection_id().unwrap().unwrap().as_str(),
        "connection-9"
    );
    assert_eq!(back.client_id().unwrap().as_str(), "client-7");
    assert_eq!(back.client_state().unwrap().value, b"state".to_vec());
    assert_eq!(back.counterparty().unwrap().connection_id, "connection-3");
    let vers = back.counterparty_versions().unwrap();
    assert_eq!(vers.len(), 2);
    assert_eq!(vers[1].features, vec!["UNORDERED".to_string()]);
    assert_eq!(back.proof_height(), Height::new(0, 10));
    assert_eq!(back.proof_connection().bytes, b"conn-proof".to_vec());
    assert_eq!(back.proof_client().bytes, b"client-proof".to_vec());
    assert_eq!(back.proof_consensus().bytes, b"consensus-proof".to_vec());
    assert_eq!(back.delay_period(), Duration::new(5, 7));
}

#[test]
fn open_try_absent_prev_id_is_not_an_error() {
    let m = sample_open_try(None);
    assert_eq!(m.previous_connection_id().unwrap(), None);
    let back = ConnectionOpenTryData::from_bytes(&m.to_bytes()).unwrap();
    assert_eq!(back.previous_connection_id().unwrap(), None);
}

#[test]
fn open_try_malformed_prev_id_is_distinct_from_absent() {
    let m = sample_open_try(Some(connection_id("connection-9")));
    let mut bytes = m.to_bytes();
    // Field one is the presence flag, then the length prefix, then the id
    // text: overwrite one character with one outside the alphabet.
    assert_eq!(bytes[0], 1);
    bytes[5] = b'!';
    let back = ConnectionOpenTryData::from_bytes(&bytes).unwrap();
    let Err(Error::DecodingError(_)) = back.previous_connection_id() else {
        panic!("expected a decoding error");
    };
    // Other fields are untouched and still readable.
    assert_eq!(back.client_id().unwrap().as_str(), "client-7");
}

#[test]
fn open_try_proof_assembly() {
    let m = sample_open_try(None);
    let bundle = m.proofs().unwrap();
    assert_eq!(bundle.object_proof.bytes, b"conn-proof".to_vec());
    assert_eq!(bundle.client_proof.unwrap().bytes, b"client-proof".to_vec());
    let consensus = bundle.consensus_proof.unwrap();
    assert_eq!(consensus.proof.bytes, b"consensus-proof".to_vec());
    assert_eq!(consensus.height, Height::new(0, 10));
    assert!(bundle.other_proof.is_none());
    assert_eq!(bundle.height, Height::new(0, 10));
}

#[test]
fn open_try_empty_consensus_proof_fails_assembly() {
    let m = ConnectionOpenTryData::new(
        None,
        client_id("client-7"),
        client_state("/a.B", b"state"),
        Counterparty {
            client_id: "client-0".to_string(),
            connection_id: "connection-3".to_string(),
            prefix: b"ibc".to_vec(),
        },
        vec![],
        Height::new(0, 10),
        CommitmentProofBytes { bytes: b"conn-proof".to_vec() },
        CommitmentProofBytes { bytes: b"client-proof".to_vec() },
        CommitmentProofBytes { bytes: Vec::new() },
        Duration::new(5, 7),
    );
    let Err(Error::DecodingError(_)) = m.proofs() else {
        panic!("expected a decoding error");
    };
}

#[test]
fn container_layout_matches_borsh() {
    // The container format is the chain's general payload encoding: check it
    // byte for byte against borsh on equivalent plain tuples.
    let cs = client_state("/a.B", b"one");
    let ns = consensus_state("/c.D", b"two");
    let m = ClientCreationData::new(cs.clone(), ns.clone());
    let expected = borsh::to_vec(&(cs.encode_vec(), ns.encode_vec())).unwrap();
    assert_eq!(m.to_bytes(), expected);

    let try_msg = sample_open_try(Some(connection_id("connection-9")));
    let expected_try = borsh::to_vec(&(
        Some("connection-9".to_string()),
        "client-7".to_string(),
        client_state("/a.B", b"state").encode_vec(),
        ibc_proto::ibc::core::connection::v1::Counterparty {
            client_id: "client-0".to_string(),
            connection_id: "connection-3".to_string(),
            prefix: Some(ibc_proto::ibc::core::commitment::v1::MerklePrefix {
                key_prefix: b"ibc".to_vec(),
            }),
        }
        .encode_to_vec(),
        vec![
            Version { identifier: "1".to_string(), features: vec![] }.encode_vec(),
            Version { identifier: "2".to_string(), features: vec!["UNORDERED".to_string()] }
                .encode_vec(),
        ],
        (0u64, 10u64),
        b"conn-proof".to_vec(),
        b"client-proof".to_vec(),
        b"consensus-proof".to_vec(),
        (5u64, 7u32),
    ))
    .unwrap();
    assert_eq!(try_msg.to_bytes(), expected_try);
}
